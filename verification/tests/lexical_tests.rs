use file_gateway::lexical::{final_component_of, lexical_segments, render_segments, split_path};
use file_gateway::text::{chars_of, string_of};

fn strings(segments: &Vec<Vec<char>>) -> Vec<String> {
    segments.iter().map(string_of).collect()
}

#[test]
fn split_path_cuts_at_every_separator() {
    assert_eq!(strings(&split_path(&chars_of("a/b/c"))), vec!["a", "b", "c"]);
    assert_eq!(strings(&split_path(&chars_of("/a//b/"))), vec!["", "a", "", "b", ""]);
    assert_eq!(strings(&split_path(&chars_of(""))), vec![""]);
    assert_eq!(strings(&split_path(&chars_of("/"))), vec!["", ""]);
    assert_eq!(strings(&split_path(&chars_of("abc"))), vec!["abc"]);
}

#[test]
fn split_path_agrees_with_std() {
    for text in ["", "/", "a", "a/b", "//", "/a/", "a//b", "../x/./y/"] {
        let expected: Vec<String> = text.split('/').map(|s| s.to_string()).collect();
        assert_eq!(strings(&split_path(&chars_of(text))), expected);
    }
}

#[test]
fn lexical_segments_resolves_dots() {
    assert_eq!(strings(&lexical_segments(&chars_of("/srv/data/a/../b"))), vec!["srv", "data", "b"]);
    assert_eq!(strings(&lexical_segments(&chars_of("/srv/./data//x/"))), vec!["srv", "data", "x"]);
    assert_eq!(strings(&lexical_segments(&chars_of("/srv/data/../../etc"))), vec!["etc"]);
    assert_eq!(strings(&lexical_segments(&chars_of("/a/../../.."))), Vec::<String>::new());
    assert_eq!(strings(&lexical_segments(&chars_of("/"))), Vec::<String>::new());
    assert_eq!(strings(&lexical_segments(&chars_of("/..."))), vec!["..."]);
}

#[test]
fn render_segments_writes_an_absolute_path() {
    assert_eq!(string_of(&render_segments(&vec![])), "/");
    assert_eq!(string_of(&render_segments(&vec![chars_of("a")])), "/a");
    assert_eq!(string_of(&render_segments(&vec![chars_of("a"), chars_of("b.c")])), "/a/b.c");
}

#[test]
fn render_of_lexical_segments_normalises() {
    let path = chars_of("/srv//data/./a/b/../c/");
    assert_eq!(string_of(&render_segments(&lexical_segments(&path))), "/srv/data/a/c");
}

#[test]
fn final_component_of_passes_over_dots_and_separators() {
    assert_eq!(final_component_of(&chars_of("a/b/.//")).map(|n| string_of(&n)), Some("b".to_string()));
    assert_eq!(final_component_of(&chars_of("a/b/..")), None);
    assert_eq!(final_component_of(&chars_of("///")), None);
}
