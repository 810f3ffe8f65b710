use texture_downloader::download::{
    downloads_to_start, file_requests, plan_file, Download, DownloadTarget, FileRequest, FileStep,
};
use texture_downloader::report::{
    clock_reading, links_found_message, log_line, log_message, pages_found_message,
    prepare_message, progress_message, stamped_line,
};
use texture_downloader::path::{is_local_name, join_path};
use texture_downloader::schedule::Scheduler;
use texture_downloader::text::{
    before_first, chars_of, concatenate, decimal, pad_right, replace_char, str_contains, str_ends_with,
    string_of,
};

#[test]
fn requests_put_files_in_the_directory() {
    let downloads = vec![
        Download::zip("https://x/a.zip".to_string(), "A.zip".to_string()),
        Download::gdrive("https://drive.google.com/b".to_string(), "B.zip".to_string()),
    ];
    let reqs = file_requests(&downloads, "./textures/textures");
    assert_eq!(
        reqs,
        vec![
            FileRequest {
                url: "https://x/a.zip".to_string(),
                path: "./textures/textures/A.zip".to_string(),
                filename: "A.zip".to_string()
            },
            FileRequest {
                url: "https://drive.google.com/b".to_string(),
                path: "./textures/textures/B.zip".to_string(),
                filename: "B.zip".to_string()
            },
        ]
    );
}

#[test]
fn names_leading_elsewhere_get_no_request() {
    let downloads = vec![
        Download::zip("u1".to_string(), "../up.zip".to_string()),
        Download::zip("u2".to_string(), "..".to_string()),
        Download::zip("u3".to_string(), "/etc/x.zip".to_string()),
        Download::zip("u4".to_string(), String::new()),
        Download::zip("u5".to_string(), "ok.zip".to_string()),
    ];
    let reqs = file_requests(&downloads, "out");
    assert_eq!(
        reqs,
        vec![
            FileRequest { url: "u4".to_string(), path: "out/".to_string(), filename: String::new() },
            FileRequest { url: "u5".to_string(), path: "out/ok.zip".to_string(), filename: "ok.zip".to_string() },
        ]
    );
}

#[test]
fn entry_names() {
    assert!(is_local_name("a.zip"));
    assert!(is_local_name("...zip"));
    assert!(is_local_name(""));
    assert!(is_local_name("."));
    assert!(!is_local_name(".."));
    assert!(!is_local_name("a/b"));
    assert!(!is_local_name("/a"));
}

#[test]
fn present_files_are_skipped() {
    let req = FileRequest { url: "u".to_string(), path: "d/f.zip".to_string(), filename: "f.zip".to_string() };
    assert_eq!(plan_file(&req, true), FileStep::Skip { notice: "skip f.zip".to_string() });
    assert_eq!(
        plan_file(&req, false),
        FileStep::Fetch { url: "u".to_string(), path: "d/f.zip".to_string() }
    );
}

#[test]
fn admission_respects_the_limit() {
    assert_eq!(downloads_to_start(100, 0, 64), 64);
    assert_eq!(downloads_to_start(100, 60, 64), 4);
    assert_eq!(downloads_to_start(3, 10, 64), 3);
    assert_eq!(downloads_to_start(5, 64, 64), 0);
    assert_eq!(downloads_to_start(5, 0, 0), 1);
    assert_eq!(downloads_to_start(5, 1, 0), 0);
    assert_eq!(downloads_to_start(0, 0, 8), 0);
}

#[test]
fn count_reports() {
    assert_eq!(pages_found_message(12), "found 12 pages");
    assert_eq!(pages_found_message(0), "found 0 pages");
    assert_eq!(links_found_message(7, 2), "found 7 downloads and 2 invalid links");
    assert_eq!(prepare_message(5, DownloadTarget::Textures), "Prepare downloading for 5 texture");
    assert_eq!(prepare_message(1, DownloadTarget::Skybox), "Prepare downloading for 1 skybox");
}

#[test]
fn progress_reports_are_padded() {
    assert_eq!(progress_message(DownloadTarget::Textures, 1, 2), "Finished download texture: 1 of 2");
    assert_eq!(progress_message(DownloadTarget::Skybox, 3, 10), "Finished download skybox:  3 of 10");
    assert_eq!(
        progress_message(DownloadTarget::Skybox, 3, 10),
        format!("Finished download {:<8} {} of {}", "skybox:", 3, 10)
    );
}

fn request(name: &str) -> FileRequest {
    FileRequest {
        url: format!("https://x/{}", name),
        path: format!("d/{}", name),
        filename: name.to_string(),
    }
}

#[test]
fn queue_counts_each_target() {
    let mut s = Scheduler::new(64);
    assert_eq!(
        s.add(DownloadTarget::Textures, vec![request("a.zip"), request("b.zip")]),
        "Prepare downloading for 2 texture"
    );
    assert_eq!(s.total(DownloadTarget::Textures), 2);
    assert_eq!(s.waiting_len(), 2);
    let started = s.start_ready();
    assert_eq!(
        started,
        vec![
            (DownloadTarget::Textures, request("a.zip")),
            (DownloadTarget::Textures, request("b.zip")),
        ]
    );
    assert_eq!(s.running(DownloadTarget::Textures), 2);
    assert_eq!(s.finish(DownloadTarget::Textures), "Finished download texture: 1 of 2");
    assert_eq!(s.finish(DownloadTarget::Textures), "Finished download texture: 2 of 2");
    assert_eq!(s.done(DownloadTarget::Textures), 2);
    assert_eq!(s.running(DownloadTarget::Textures), 0);
}

#[test]
fn queue_limit_holds_across_targets() {
    let mut s = Scheduler::new(3);
    s.add(DownloadTarget::Textures, vec![request("t1"), request("t2")]);
    s.add(DownloadTarget::Skybox, vec![request("s1"), request("s2"), request("s3")]);
    let first = s.start_ready();
    assert_eq!(first.len(), 3);
    assert_eq!(first[2], (DownloadTarget::Skybox, request("s1")));
    assert_eq!(s.running(DownloadTarget::Textures) + s.running(DownloadTarget::Skybox), 3);
    assert!(s.start_ready().is_empty());
    assert_eq!(s.finish(DownloadTarget::Skybox), "Finished download skybox:  1 of 3");
    let next = s.start_ready();
    assert_eq!(next, vec![(DownloadTarget::Skybox, request("s2"))]);
    assert_eq!(s.waiting_len(), 1);
}

#[test]
fn queue_with_zero_limit_runs_one_at_a_time() {
    let mut s = Scheduler::new(0);
    s.add(DownloadTarget::Skybox, vec![request("s1"), request("s2")]);
    assert_eq!(s.start_ready().len(), 1);
    assert_eq!(s.start_ready().len(), 0);
    s.finish(DownloadTarget::Skybox);
    assert_eq!(s.start_ready().len(), 1);
}

#[test]
fn clock_readings() {
    assert_eq!(clock_reading(0), "00:00");
    assert_eq!(clock_reading(3599), "00:59");
    assert_eq!(clock_reading(3600 * 13 + 60 * 7 + 30), "13:07");
    assert_eq!(clock_reading(86400 * 365 + 3600 * 23 + 60 * 59), "23:59");
    assert_eq!(stamped_line(3600 * 9 + 60 * 41, "found 3 pages"), "[09:41]: found 3 pages");
}

#[test]
fn decimal_rendering() {
    assert_eq!(decimal(0), "0");
    assert_eq!(decimal(7), "7");
    assert_eq!(decimal(10), "10");
    assert_eq!(decimal(1234567890), "1234567890");
    assert_eq!(decimal(usize::MAX), usize::MAX.to_string());
}

#[test]
fn padding() {
    assert_eq!(pad_right("ab", 5), "ab   ");
    assert_eq!(pad_right("texture:", 8), "texture:");
    assert_eq!(pad_right("toolongtext", 3), "toolongtext");
    assert_eq!(pad_right("", 2), "  ");
}

#[test]
fn searching() {
    assert!(str_contains("https://drive.google.com/x", "drive.google.com"));
    assert!(!str_contains("https://drive.google.co/x", "drive.google.com"));
    assert!(str_contains("abc", ""));
    assert!(!str_contains("", "a"));
    assert!(str_ends_with("a.zip", ".zip"));
    assert!(!str_ends_with("a.zip?x=1", ".zip"));
    assert!(!str_ends_with("zip", ".zip"));
    assert!(str_ends_with("", ""));
}

#[test]
fn transformations() {
    assert_eq!(replace_char("a b  c", ' ', '_'), "a_b__c");
    assert_eq!(before_first("a|b|c", '|'), "a");
    assert_eq!(before_first("abc", '|'), "abc");
    assert_eq!(before_first("|", '|'), "");
    assert_eq!(concatenate("ab", "cd"), "abcd");
    assert_eq!(string_of(&chars_of("héllo")), "héllo");
}

#[test]
fn joining_paths() {
    assert_eq!(join_path("dir", "f.zip"), "dir/f.zip");
    assert_eq!(join_path("dir/", "f.zip"), "dir/f.zip");
    assert_eq!(join_path("", "f.zip"), "f.zip");
    for (d, n) in [("dir", "f.zip"), ("dir/", "f.zip"), ("", "f.zip"), ("a/b", "c d.zip")] {
        let mut p = std::path::PathBuf::from(d);
        p.push(n);
        assert_eq!(join_path(d, n), p.to_string_lossy());
    }
}
