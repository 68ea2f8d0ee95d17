use file_gateway::download::{
    check_downloadable, content_range, plan_download, plan_transfer, unsatisfiable_range,
    DownloadPlan, TransferCursor,
};
use file_gateway::entry::EntryKind;
use file_gateway::error::GatewayError;
use file_gateway::path::RootContext;

#[test]
fn download_without_range_sends_the_whole_file() {
    let plan = plan_transfer("a.bin", "application/octet-stream", 1000, None).unwrap();
    assert_eq!(
        plan,
        DownloadPlan {
            status: 200,
            start: 0,
            length: 1000,
            content_type: "application/octet-stream".to_string(),
            content_disposition: "attachment; filename=\"a.bin\"".to_string(),
            accept_ranges: "bytes".to_string(),
            content_range: None,
        }
    );
    assert_eq!(plan.content_length(), "1000");
}

#[test]
fn download_of_an_empty_file_sends_nothing_under_status_200() {
    let plan = plan_transfer("empty", "text/plain", 0, None).unwrap();
    assert_eq!((plan.status, plan.start, plan.length), (200, 0, 0));
    assert_eq!(plan.content_length(), "0");
    assert_eq!(plan.content_range, None);
}

#[test]
fn download_with_range_sends_the_part() {
    let plan = plan_transfer("a.bin", "video/mp4", 1000, Some("bytes=100-199")).unwrap();
    assert_eq!(plan.status, 206);
    assert_eq!(plan.start, 100);
    assert_eq!(plan.length, 100);
    assert_eq!(plan.content_length(), "100");
    assert_eq!(plan.content_range, Some("bytes 100-199/1000".to_string()));
    assert_eq!(plan.content_type, "video/mp4");
    assert_eq!(plan.accept_ranges, "bytes");
    assert_eq!(plan.content_disposition, "attachment; filename=\"a.bin\"");
}

#[test]
fn download_with_open_range_runs_to_the_end() {
    let plan = plan_transfer("a", "x/y", 1000, Some("bytes=990-")).unwrap();
    assert_eq!((plan.status, plan.start, plan.length), (206, 990, 10));
    assert_eq!(plan.content_range, Some("bytes 990-999/1000".to_string()));
}

#[test]
fn download_with_range_past_the_end_is_cut_down() {
    let plan = plan_transfer("a", "x/y", 10, Some("bytes=0-99")).unwrap();
    assert_eq!((plan.status, plan.start, plan.length), (206, 0, 10));
    assert_eq!(plan.content_range, Some("bytes 0-9/10".to_string()));
}

#[test]
fn download_with_a_single_byte_range() {
    let plan = plan_transfer("a", "x/y", 10, Some("bytes=9-9")).unwrap();
    assert_eq!((plan.status, plan.start, plan.length), (206, 9, 1));
}

#[test]
fn download_refuses_an_unsatisfiable_range() {
    for range in ["bytes=5-3", "bytes=10-", "bytes=10-20", "bytes=x-", "nonsense", ""] {
        assert_eq!(
            plan_transfer("a", "x/y", 10, Some(range)).unwrap_err(),
            GatewayError::RangeNotSatisfiable,
            "{:?}",
            range
        );
    }
    assert_eq!(
        plan_transfer("a", "x/y", 0, Some("bytes=0-")).unwrap_err(),
        GatewayError::RangeNotSatisfiable
    );
}

#[test]
fn content_range_texts() {
    assert_eq!(content_range(0, 0, 1), "bytes 0-0/1");
    assert_eq!(content_range(10, 2000, 30000), "bytes 10-2000/30000");
    assert_eq!(unsatisfiable_range(0), "bytes */0");
    assert_eq!(unsatisfiable_range(12345), "bytes */12345");
}

#[test]
fn plan_download_guesses_the_media_type_from_the_extension() {
    let ctx = RootContext::new("/srv/data").unwrap();
    let cases = [
        ("/srv/data/notes.txt", "text/plain"),
        ("/srv/data/page.html", "text/html"),
        ("/srv/data/pic.PNG", "image/png"),
        ("/srv/data/doc.pdf", "application/pdf"),
        ("/srv/data/movie.mp4", "video/mp4"),
        ("/srv/data/data.json", "application/json"),
        ("/srv/data/noextension", "application/octet-stream"),
        ("/srv/data/strange.zzzzzz", "application/octet-stream"),
    ];
    for (path, media) in cases {
        let resolved = ctx.resolve(Some(path)).unwrap();
        let plan = plan_download(&resolved, EntryKind::File, 10, None).unwrap();
        assert_eq!(plan.content_type, media, "{}", path);
    }
}

#[test]
fn plan_download_names_the_file() {
    let ctx = RootContext::new("/srv/data").unwrap();
    let resolved = ctx.resolve(Some("/srv/data/docs/report.pdf")).unwrap();
    let plan = plan_download(&resolved, EntryKind::File, 2048, Some("bytes=0-1023")).unwrap();
    assert_eq!(plan.content_disposition, "attachment; filename=\"report.pdf\"");
    assert_eq!(plan.status, 206);
    assert_eq!(plan.length, 1024);
    assert_eq!(plan.content_range, Some("bytes 0-1023/2048".to_string()));
    let top = RootContext::new("/").unwrap().root_path();
    let unnamed = plan_download(&top, EntryKind::File, 1, None).unwrap();
    assert_eq!(unnamed.content_disposition, "attachment; filename=\"unknow\"");
}

#[test]
fn plan_download_refuses_what_is_no_file() {
    let ctx = RootContext::new("/srv/data").unwrap();
    let resolved = ctx.resolve(Some("/srv/data/docs")).unwrap();
    for kind in [EntryKind::Directory, EntryKind::Symlink, EntryKind::Unknown] {
        assert_eq!(
            plan_download(&resolved, kind, 10, None).unwrap_err(),
            GatewayError::BadRequest
        );
    }
}

#[test]
fn plan_download_reports_an_unsatisfiable_range() {
    let ctx = RootContext::new("/srv/data").unwrap();
    let resolved = ctx.resolve(Some("/srv/data/a.txt")).unwrap();
    assert_eq!(
        plan_download(&resolved, EntryKind::File, 10, Some("bytes=20-30")).unwrap_err(),
        GatewayError::RangeNotSatisfiable
    );
}

#[test]
fn cursor_hands_out_chunks_up_to_the_length() {
    let plan = plan_transfer("a", "x/y", 1000, Some("bytes=100-349")).unwrap();
    let mut cursor = plan.cursor();
    assert_eq!(cursor.remaining(), 250);
    assert!(!cursor.is_done());
    let mut sizes = Vec::new();
    let mut rounds = 0;
    while !cursor.is_done() {
        let size = cursor.next_chunk(100);
        assert!(size > 0);
        assert!(cursor.advance(size));
        sizes.push(size);
        rounds += 1;
        assert!(rounds < 10);
    }
    assert_eq!(sizes, vec![100, 100, 50]);
    assert_eq!(cursor.sent(), 250);
    assert_eq!(cursor.remaining(), 0);
    assert_eq!(cursor.next_chunk(100), 0);
}

#[test]
fn cursor_takes_short_reads() {
    let mut cursor = TransferCursor::new(10);
    assert_eq!(cursor.next_chunk(4), 4);
    assert!(cursor.advance(3));
    assert_eq!(cursor.sent(), 3);
    assert_eq!(cursor.next_chunk(100), 7);
    assert!(cursor.advance(7));
    assert!(cursor.is_done());
}

#[test]
fn cursor_refuses_more_than_is_left() {
    let mut cursor = TransferCursor::new(10);
    assert!(!cursor.advance(11));
    assert_eq!(cursor.sent(), 0);
    assert!(cursor.advance(10));
    assert!(!cursor.advance(1));
    assert_eq!(cursor.sent(), 10);
    assert!(cursor.advance(0));
}

#[test]
fn cursor_over_nothing_is_done() {
    let cursor = TransferCursor::new(0);
    assert!(cursor.is_done());
    assert_eq!(cursor.next_chunk(8), 0);
}

#[test]
fn only_a_file_is_downloadable() {
    assert_eq!(check_downloadable(EntryKind::File), Ok(()));
    for kind in [EntryKind::Directory, EntryKind::Symlink, EntryKind::Unknown] {
        assert_eq!(check_downloadable(kind), Err(GatewayError::BadRequest));
    }
}
