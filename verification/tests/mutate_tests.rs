use file_gateway::entry::EntryKind;
use file_gateway::error::GatewayError;
use file_gateway::mutate::{
    plan_create, removal_for, removal_outcome, rename_failure, rename_target, CreatePlan,
    CreateStep, Removal,
};
use file_gateway::path::RootContext;

fn plan(root: &str, rel: &str) -> CreatePlan {
    plan_create(&RootContext::new(root).unwrap(), rel)
}

fn created(step: CreateStep) -> String {
    match step {
        CreateStep::Create(target) => target.path(),
        other => panic!("no target: {:?}", other),
    }
}

fn refused(step: CreateStep) -> GatewayError {
    match step {
        CreateStep::Refuse(error) => error,
        other => panic!("no refusal: {:?}", other),
    }
}

fn asked(step: CreateStep) -> CreatePlan {
    match step {
        CreateStep::Ask(plan) => plan,
        other => panic!("no question: {:?}", other),
    }
}

#[test]
fn removal_follows_the_kind() {
    assert_eq!(removal_for(EntryKind::File), Removal::Single);
    assert_eq!(removal_for(EntryKind::Symlink), Removal::Single);
    assert_eq!(removal_for(EntryKind::Directory), Removal::Tree);
    assert_eq!(removal_for(EntryKind::Unknown), Removal::Nothing);
}

#[test]
fn rename_stays_in_the_directory() {
    let ctx = RootContext::new("/srv/data").unwrap();
    let source = ctx.resolve(Some("/srv/data/docs/old.txt")).unwrap();
    let target = rename_target(&source, "new.txt").unwrap();
    assert_eq!(target.path(), "/srv/data/docs/new.txt");
    assert_eq!(target.relative(), "docs/new.txt");
}

#[test]
fn rename_rejects_a_new_name_with_a_separator() {
    let ctx = RootContext::new("/srv/data").unwrap();
    let source = ctx.resolve(Some("/srv/data/docs/old.txt")).unwrap();
    for newname in ["a/b", "../escaped", "/etc/passwd", "sub/", "/", "../../x"] {
        assert_eq!(
            rename_target(&source, newname).unwrap_err(),
            GatewayError::Forbidden,
            "{:?}",
            newname
        );
    }
}

#[test]
fn rename_rejects_names_that_are_none() {
    let ctx = RootContext::new("/srv/data").unwrap();
    let source = ctx.resolve(Some("/srv/data/old")).unwrap();
    for newname in ["", ".", ".."] {
        assert_eq!(rename_target(&source, newname).unwrap_err(), GatewayError::Forbidden);
    }
}

#[test]
fn rename_of_the_root_is_refused() {
    let ctx = RootContext::new("/srv/data").unwrap();
    assert_eq!(
        rename_target(&ctx.root_path(), "other").unwrap_err(),
        GatewayError::Forbidden
    );
}

#[test]
fn plan_create_starts_with_the_whole_path() {
    assert_eq!(plan("/srv/data", "a/b/c").candidate(), "/srv/data/a/b/c");
    assert_eq!(plan("/srv/data", "").candidate(), "/srv/data");
    assert_eq!(plan("/", "a").candidate(), "/a");
}

#[test]
fn plan_create_drops_empty_segments_and_single_dots_only() {
    assert_eq!(plan("/srv/data", "a/./b//c/").candidate(), "/srv/data/a/b/c");
    assert_eq!(plan("/srv/data", "./a/.").candidate(), "/srv/data/a");
}

#[test]
fn plan_create_keeps_double_dots_as_written() {
    assert_eq!(plan("/srv/data", "a/../b").candidate(), "/srv/data/a/../b");
    assert_eq!(plan("/srv/data", "../data/x").candidate(), "/srv/data/../data/x");
    assert_eq!(plan("/srv/data", "../../etc").candidate(), "/srv/data/../../etc");
    assert_eq!(plan("/srv/data", "..").candidate(), "/srv/data/..");
}

#[test]
fn plan_create_lets_an_absolute_path_replace_the_root() {
    assert_eq!(plan("/srv/data", "/srv/data/x").candidate(), "/srv/data/x");
    assert_eq!(plan("/srv/data", "/etc").candidate(), "/etc");
    assert_eq!(plan("/srv/data", "/").candidate(), "/");
}

#[test]
fn answer_builds_on_the_candidate_that_exists() {
    let step = plan("/srv/data", "a/b").answer(Some("/srv/data/a/b"));
    assert_eq!(created(step), "/srv/data/a/b");
}

#[test]
fn answer_asks_further_up_until_something_exists() {
    let first = plan("/srv/data", "a/b/c");
    assert_eq!(first.candidate(), "/srv/data/a/b/c");
    let second = asked(first.answer(None));
    assert_eq!(second.candidate(), "/srv/data/a/b");
    let third = asked(second.answer(None));
    assert_eq!(third.candidate(), "/srv/data/a");
    assert_eq!(created(third.answer(Some("/srv/data/a"))), "/srv/data/a/b/c");
}

#[test]
fn answer_follows_a_link_inside_the_root() {
    let first = plan("/srv/data", "link/new");
    let second = asked(first.answer(None));
    assert_eq!(second.candidate(), "/srv/data/link");
    assert_eq!(created(second.answer(Some("/srv/data/real/dir"))), "/srv/data/real/dir/new");
}

#[test]
fn answer_refuses_a_link_that_leaves_the_root() {
    let first = plan("/srv/data", "link/new");
    let second = asked(first.answer(None));
    assert_eq!(refused(second.answer(Some("/etc"))), GatewayError::Forbidden);
    assert_eq!(
        refused(plan("/srv/data", "x").answer(Some("/srv/database/x"))),
        GatewayError::Forbidden
    );
}

#[test]
fn answer_leaves_double_dots_behind_a_link_to_the_file_system() {
    // `link` leads out of the root, so the file system resolves `link/..`
    // outside: nothing may be created.
    let first = plan("/srv", "link/../x");
    assert_eq!(first.candidate(), "/srv/link/../x");
    let second = asked(first.answer(None));
    assert_eq!(second.candidate(), "/srv/link/..");
    assert_eq!(refused(second.answer(Some("/mnt"))), GatewayError::Forbidden);
}

#[test]
fn answer_takes_double_dots_that_the_file_system_resolves_inside() {
    let first = plan("/srv/data", "a/../b");
    let second = asked(first.answer(None));
    assert_eq!(second.candidate(), "/srv/data/a/..");
    assert_eq!(created(second.answer(Some("/srv/data"))), "/srv/data/b");
    // `link` leads to `/srv/data/deep/down`, two levels up from there is
    // `/srv/data`.
    let third = plan("/srv/data", "link/../../x");
    let fourth = asked(third.answer(None));
    assert_eq!(fourth.candidate(), "/srv/data/link/../..");
    assert_eq!(created(fourth.answer(Some("/srv/data"))), "/srv/data/x");
    assert_eq!(
        created(plan("/srv/data", "a/../b").answer(Some("/srv/data/b"))),
        "/srv/data/b"
    );
}

#[test]
fn answer_refuses_double_dots_behind_what_does_not_exist() {
    let mut current = plan("/srv/data", "new/../x");
    for expected in ["/srv/data/new/../x", "/srv/data/new/..", "/srv/data/new"] {
        assert_eq!(current.candidate(), expected);
        current = asked(current.answer(None));
    }
    assert_eq!(current.candidate(), "/srv/data");
    assert_eq!(refused(current.answer(Some("/srv/data"))), GatewayError::Forbidden);
}

#[test]
fn answer_refuses_what_leaves_the_root() {
    assert_eq!(
        refused(plan("/srv/data", "../../etc").answer(Some("/etc"))),
        GatewayError::Forbidden
    );
    assert_eq!(
        refused(plan("/srv/data", "..").answer(Some("/srv"))),
        GatewayError::Forbidden
    );
    assert_eq!(
        refused(asked(plan("/srv/data", "/etc/new").answer(None)).answer(Some("/etc"))),
        GatewayError::Forbidden
    );
    assert_eq!(
        refused(plan("/srv/data", "../database/x").answer(Some("/srv/database/x"))),
        GatewayError::Forbidden
    );
}

#[test]
fn answer_refuses_a_canonical_path_that_is_not_in_normal_form() {
    assert_eq!(
        refused(plan("/srv/data", "a").answer(Some("/srv/data/../data/a"))),
        GatewayError::Forbidden
    );
}

#[test]
fn answer_refuses_everything_when_the_root_is_gone() {
    let first = plan("/srv/data", "a");
    let second = asked(first.answer(None));
    assert_eq!(second.candidate(), "/srv/data");
    let third = asked(second.answer(None));
    assert_eq!(third.candidate(), "/srv");
    assert_eq!(refused(third.answer(Some("/srv"))), GatewayError::Forbidden);
}

#[test]
fn answer_gives_up_when_nothing_exists() {
    let mut current = plan("/srv", "a");
    for expected in ["/srv/a", "/srv"] {
        assert_eq!(current.candidate(), expected);
        current = asked(current.answer(None));
    }
    assert_eq!(current.candidate(), "/");
    assert_eq!(refused(current.answer(None)), GatewayError::NotFound);
}

#[test]
fn creating_the_same_directory_twice_plans_the_same() {
    let once = created(plan("/srv/data", "a/b").answer(Some("/srv/data/a/b")));
    let twice = created(plan("/srv/data", "a/b").answer(Some("/srv/data/a/b")));
    assert_eq!(once, twice);
}

#[test]
fn removal_outcome_follows_the_file_system() {
    for removal in [Removal::Single, Removal::Tree] {
        assert!(removal_outcome(removal, true));
        assert!(!removal_outcome(removal, false));
    }
}

#[test]
fn removal_outcome_of_what_cannot_be_removed_counts_as_done() {
    assert!(removal_outcome(Removal::Nothing, false));
    assert!(removal_outcome(Removal::Nothing, true));
}

#[test]
fn rename_failure_tells_a_missing_entry_from_a_conflict() {
    assert_eq!(rename_failure(true), GatewayError::NotFound);
    assert_eq!(rename_failure(false), GatewayError::Conflict);
}
