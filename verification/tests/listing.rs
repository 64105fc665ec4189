use fileman::archive::{archive_format, is_archive, is_tar_gz, zip_step, ArchiveFormat, ZipStep};
use fileman::fs_entry::{
    attribute_label, list_dir, list_subdirs, sort_entries, FsEntry, RawChild, RawEntry,
};
use fileman::icon_cache::{
    file_icon_cache_key, finish_pixels, has_any_alpha, icon_buffer_len, IconCache,
};
use fileman::listing::{without_hidden, ListingJob, ListingReply};
use fileman::search::{filter_entries, recursive_search, walk_recursive};
use fileman::size_text::format_file_size;
use fileman::subdirs::{JobReply, SubdirCache, SubdirPoll};
use fileman::tab::Tab;

fn entry(name: &str, is_dir: bool, size: u64, modified: Option<i128>) -> FsEntry {
    FsEntry {
        name: name.to_string(),
        path: name.to_string(),
        is_dir,
        size,
        modified,
        archive: false,
        readonly: false,
        hidden: false,
        system: false,
    }
}

fn plain(name: &str, is_dir: bool) -> FsEntry {
    entry(name, is_dir, 0, None)
}

fn names(entries: &[FsEntry]) -> Vec<&str> {
    entries.iter().map(|e| e.name.as_str()).collect()
}

fn raw(name: &str, is_dir: bool, attributes: u32) -> RawEntry {
    RawEntry {
        name: name.to_string(),
        path: format!("C:\\dir\\{name}"),
        is_dir,
        size: 1,
        modified: None,
        attributes,
    }
}

#[test]
fn lists_dirs_first_then_files_alphabetically() {
    let found = vec![
        raw("b.txt", false, 0),
        raw("a.txt", false, 0),
        raw("z_folder", true, 0x10),
    ];

    let entries = list_dir(&found);

    assert_eq!(entries.len(), 3);
    assert_eq!(entries[0].name, "z_folder");
    assert!(entries[0].is_dir);
    assert_eq!(entries[1].name, "a.txt");
    assert!(!entries[1].is_dir);
    assert_eq!(entries[2].name, "b.txt");
}

#[test]
fn list_subdirs_returns_only_directories_sorted() {
    let dir = "C:\\dir";
    let children = vec![
        RawChild {
            path: format!("{dir}\\f.txt"),
            is_dir: Some(false),
        },
        RawChild {
            path: format!("{dir}\\b"),
            is_dir: Some(true),
        },
        RawChild {
            path: format!("{dir}\\a"),
            is_dir: Some(true),
        },
        RawChild {
            path: format!("{dir}\\unreadable"),
            is_dir: None,
        },
    ];

    let subdirs = list_subdirs(&children);

    assert_eq!(subdirs, vec![format!("{dir}\\a"), format!("{dir}\\b")]);
}

#[test]
fn sort_by_size_ascending_and_descending() {
    let mut entries = vec![
        entry("c.txt", false, 30, None),
        entry("a.txt", false, 10, None),
        entry("b.txt", false, 20, None),
    ];

    sort_entries(&mut entries, "size", true);
    assert_eq!(names(&entries), ["a.txt", "b.txt", "c.txt"]);

    sort_entries(&mut entries, "size", false);
    assert_eq!(names(&entries), ["c.txt", "b.txt", "a.txt"]);
}

#[test]
fn equal_entries_keep_their_order() {
    let listed = || {
        vec![
            entry("one.txt", false, 5, None),
            entry("small.txt", false, 1, None),
            entry("two.txt", false, 5, None),
            entry("docs", true, 0, None),
            entry("three.txt", false, 5, None),
            entry("Docs", true, 0, None),
        ]
    };
    let mut up = listed();
    sort_entries(&mut up, "size", true);
    assert_eq!(
        names(&up),
        ["docs", "Docs", "small.txt", "one.txt", "two.txt", "three.txt"]
    );
    let mut down = listed();
    sort_entries(&mut down, "size", false);
    assert_eq!(
        names(&down),
        ["docs", "Docs", "one.txt", "two.txt", "three.txt", "small.txt"]
    );
}

#[test]
fn sort_by_modified_treats_missing_time_as_oldest() {
    let t1: i128 = 0;
    let t2: i128 = 60_000_000_000;
    let mut entries = vec![
        entry("none.txt", false, 0, None),
        entry("old.txt", false, 0, Some(t1)),
        entry("new.txt", false, 0, Some(t2)),
    ];

    sort_entries(&mut entries, "modified", true);
    assert_eq!(names(&entries), ["none.txt", "old.txt", "new.txt"]);
}

#[test]
fn sort_keeps_directories_first_regardless_of_column() {
    let mut entries = vec![
        entry("zfile.txt", false, 999, None),
        entry("afolder", true, 0, None),
    ];

    sort_entries(&mut entries, "name", true);
    assert!(entries[0].is_dir);

    sort_entries(&mut entries, "size", true);
    assert!(entries[0].is_dir);
}

#[test]
fn sort_by_archive_flag() {
    let mut clean = entry("clean.bin", false, 0, None);
    clean.archive = false;
    let mut dirty = entry("dirty.bin", false, 0, None);
    dirty.archive = true;
    let mut entries = vec![clean, dirty];

    sort_entries(&mut entries, "archive", true);
    assert!(!entries[0].archive);
    assert!(entries[1].archive);

    sort_entries(&mut entries, "archive", false);
    assert!(entries[0].archive);
}

#[test]
fn folders_stay_alphabetical_when_files_are_reversed() {
    let mut entries = vec![
        plain("b", true),
        plain("A", true),
        plain("x.txt", false),
        plain("Y.txt", false),
    ];
    sort_entries(&mut entries, "name", false);
    assert_eq!(names(&entries), ["A", "b", "Y.txt", "x.txt"]);
    sort_entries(&mut entries, "name", false);
    assert_eq!(names(&entries), ["A", "b", "Y.txt", "x.txt"]);
}

#[test]
fn attributes_come_from_their_bits() {
    let found = vec![raw("a", false, 0x1 | 0x2 | 0x4 | 0x20)];
    let entries = list_dir(&found);
    assert!(entries[0].readonly && entries[0].hidden && entries[0].system && entries[0].archive);
    let none = list_dir(&vec![raw("b", false, 0x80)]);
    assert!(!none[0].readonly && !none[0].hidden && !none[0].system && !none[0].archive);
    assert_ne!(attribute_label(&entries[0]), attribute_label(&none[0]));
}

#[test]
fn filter_removes_non_matching_files_and_folders() {
    let mut entries = vec![
        plain("readme.txt", false),
        plain("data.csv", false),
        plain("src", true),
    ];
    filter_entries(&mut entries, "readme");
    assert_eq!(entries.len(), 1);
    assert_eq!(entries[0].name, "readme.txt");
}

#[test]
fn filter_keeps_matching_folders() {
    let mut entries = vec![plain("readme.txt", false), plain("resources", true)];
    filter_entries(&mut entries, "res");
    assert_eq!(entries.len(), 1);
    assert_eq!(entries[0].name, "resources");
    assert!(entries[0].is_dir);
}

#[test]
fn filter_is_case_insensitive() {
    let mut entries = vec![plain("MyFile.txt", false), plain("other.txt", false)];
    filter_entries(&mut entries, "myfile");
    assert_eq!(entries.len(), 1);
    assert_eq!(entries[0].name, "MyFile.txt");
}

#[test]
fn empty_filter_keeps_all() {
    let mut entries = vec![plain("a.txt", false), plain("b.txt", false)];
    filter_entries(&mut entries, "");
    assert_eq!(entries.len(), 2);
}

fn at(path: &str, name: &str, is_dir: bool) -> FsEntry {
    let mut e = plain(name, is_dir);
    e.path = path.to_string();
    e
}

#[test]
fn recursive_search_streams_matching_entries_from_nested_dirs() {
    let listing = |dir: &str| -> Vec<FsEntry> {
        if dir == "C:\\dir" {
            vec![
                at("C:\\dir\\sub", "sub", true),
                at("C:\\dir\\needle.txt", "needle.txt", false),
                at("C:\\dir\\unrelated.bin", "unrelated.bin", false),
            ]
        } else {
            vec![at(
                "C:\\dir\\sub\\other_needle.log",
                "other_needle.log",
                false,
            )]
        }
    };
    let mut walk = recursive_search("needle".to_string());
    walk.enter(listing("C:\\dir"));
    let mut found: Vec<String> = Vec::new();
    while let Some(step) = walk_recursive(&mut walk) {
        if step.report {
            found.push(step.entry.name.clone());
        }
        if step.descend {
            walk.enter(listing(&step.entry.path));
        }
    }
    assert_eq!(found, vec!["other_needle.log", "needle.txt"]);
    found.sort();
    assert_eq!(found, vec!["needle.txt", "other_needle.log"]);
}

#[test]
fn is_archive_detects_supported_extensions() {
    assert!(is_archive("archive.zip"));
    assert!(is_archive("archive.tar"));
    assert!(is_archive("archive.tar.gz"));
    assert!(is_archive("archive.tgz"));
    assert!(!is_archive("file.txt"));
    // A bare .gz (not .tar.gz/.tgz) is a single-file gzip stream that
    // cannot be unpacked on its own, and must not be offered as extractable.
    assert!(!is_archive("file.gz"));
}

#[test]
fn icon_keys_of_paths_and_extensions_differ() {
    assert_eq!(file_icon_cache_key("C:\\A\\X.EXE"), "path:c:\\a\\x.exe");
    assert_eq!(
        file_icon_cache_key("C:\\a\\x.exe"),
        file_icon_cache_key("c:\\A\\X.Exe")
    );
    assert_ne!(file_icon_cache_key("ext:exe.exe"), file_icon_cache_key("a.exe.txt"));
    assert_eq!(file_icon_cache_key("plain"), file_icon_cache_key("dot."));
}

#[test]
fn archive_formats() {
    assert!(is_tar_gz("C:\\x\\a.tgz"));
    assert_eq!(archive_format("a.tar.gz"), Ok(ArchiveFormat::TarGz));
    assert_eq!(archive_format("a.tar"), Ok(ArchiveFormat::Tar));
    assert_eq!(archive_format("a.zip"), Ok(ArchiveFormat::Zip));
    assert_eq!(
        archive_format("a.rar"),
        Err("unsupported archive type: a.rar".to_string())
    );
    assert_eq!(
        archive_format("file.gz"),
        Err("unsupported archive type: file.gz".to_string())
    );
    assert_eq!(
        zip_step("C:\\out", "sub\\hello.txt", false),
        ZipStep::WriteFile {
            parent: Some("C:\\out\\sub".to_string()),
            path: "C:\\out\\sub\\hello.txt".to_string(),
        }
    );
    assert_eq!(
        zip_step("C:\\out", "sub", true),
        ZipStep::MakeDir("C:\\out\\sub".to_string())
    );
}

#[test]
fn cache_key_groups_by_extension_but_pins_exe_like_types_to_their_path() {
    assert_eq!(
        file_icon_cache_key("C:\\a\\b.txt"),
        file_icon_cache_key("D:\\other\\c.txt")
    );
    assert_eq!(file_icon_cache_key("C:\\a\\b.TXT"), "ext:txt");
    assert_ne!(
        file_icon_cache_key("C:\\a\\notepad.exe"),
        file_icon_cache_key("C:\\b\\notepad.exe")
    );
    assert_eq!(
        file_icon_cache_key("C:\\a\\README").starts_with("ext:"),
        true
    );
}

#[test]
fn icons_are_asked_for_once() {
    let mut cache = IconCache::new();
    let entries = vec![
        at("C:\\a.txt", "a.txt", false),
        at("C:\\b.TXT", "b.TXT", false),
        at("C:\\dir", "dir", true),
    ];
    let wanted = cache.wanted(&entries);
    assert_eq!(wanted.len(), 1);
    assert_eq!(wanted[0].key, "ext:txt");
    cache.insert(wanted[0].key.clone(), Some(7));
    assert!(cache.wanted(&entries).is_empty());
    assert_eq!(cache.ensure_entry_icons(&entries), vec![Some(7), Some(7), None]);
    assert_eq!(cache.get("ext:png"), None);
}

#[test]
fn icons_without_alpha_become_opaque() {
    assert_eq!(icon_buffer_len(16, 16), Some(1024));
    assert_eq!(icon_buffer_len(0, 16), None);
    assert_eq!(icon_buffer_len(257, 16), None);
    // Blue, green, red, alpha become red, green, blue, alpha.
    let mut clear = vec![1u8, 2, 3, 0, 4, 5, 6, 0];
    assert!(!has_any_alpha(&clear));
    finish_pixels(&mut clear);
    assert_eq!(clear, vec![3, 2, 1, 255, 6, 5, 4, 255]);
    let mut shaded = vec![1u8, 2, 3, 0, 4, 5, 6, 9];
    finish_pixels(&mut shaded);
    assert_eq!(shaded, vec![3, 2, 1, 0, 6, 5, 4, 9]);
}

#[test]
fn poll_subdirs_resolves_background_listing_then_caches() {
    let mut cache = SubdirCache::new();
    let dir = "C:\\dir";
    assert_eq!(cache.poll_subdirs(dir, JobReply::Pending), SubdirPoll::Start);
    assert!(cache.in_flight(dir));
    assert_eq!(cache.poll_subdirs(dir, JobReply::Pending), SubdirPoll::Wait);

    let children = vec![
        RawChild {
            path: "C:\\dir\\sub_b".to_string(),
            is_dir: Some(true),
        },
        RawChild {
            path: "C:\\dir\\sub_a".to_string(),
            is_dir: Some(true),
        },
        RawChild {
            path: "C:\\dir\\file.txt".to_string(),
            is_dir: Some(false),
        },
    ];
    let listed = list_subdirs(&children);
    let resolved = cache.poll_subdirs(dir, JobReply::Listed(listed));
    let expected = vec!["C:\\dir\\sub_a".to_string(), "C:\\dir\\sub_b".to_string()];
    assert_eq!(resolved, SubdirPoll::Ready(expected.clone()));
    assert!(!cache.in_flight(dir));

    assert_eq!(
        cache.poll_subdirs(dir, JobReply::Pending),
        SubdirPoll::Ready(expected)
    );
    assert!(!cache.in_flight(dir), "a cached listing starts no job");

    cache.forget("C:\\dir\\");
    assert_eq!(cache.poll_subdirs(dir, JobReply::Pending), SubdirPoll::Start);
    assert_eq!(
        cache.poll_subdirs(dir, JobReply::Failed),
        SubdirPoll::Ready(vec![])
    );
}

#[test]
fn sizes_read_as_people_write_them() {
    let kb: u64 = 1024;
    let mb: u64 = 1024 * kb;
    let gb: u64 = 1024 * mb;
    for bytes in [
        0,
        1,
        1023,
        1024,
        1536,
        1075,
        10 * kb + 51,
        mb - 1,
        mb,
        mb + mb / 2,
        gb - 1,
        gb,
        3 * gb + 12345,
        1229,
        1280,
        u64::MAX,
    ] {
        let expected = if bytes >= gb {
            format!("{:.1} GB", bytes as f64 / gb as f64)
        } else if bytes >= mb {
            format!("{:.1} MB", bytes as f64 / mb as f64)
        } else if bytes >= kb {
            format!("{:.1} KB", bytes as f64 / kb as f64)
        } else {
            format!("{bytes} B")
        };
        assert_eq!(format_file_size(bytes), expected);
    }
}

#[test]
fn hidden_entries_are_left_out_unless_asked_for() {
    let mut h = plain("h", false);
    h.hidden = true;
    let all = vec![plain("a", false), h];
    let few = without_hidden(all.clone(), false);
    assert_eq!(names(&few), ["a"]);
    assert_eq!(without_hidden(all, true).len(), 2);
}

#[test]
fn a_listing_is_started_once_and_discarded_when_the_tab_has_moved() {
    let mut job = ListingJob::idle();
    let mut tab = Tab::new("C:\\a".to_string());
    assert_eq!(
        job.poll_listing(&mut tab, ListingReply::Pending, false),
        Some("C:\\a".to_string())
    );
    assert!(job.running());
    assert!(!tab.listing_dirty);
    assert_eq!(job.poll_listing(&mut tab, ListingReply::Pending, false), None);
    tab.navigate_to("C:\\b".to_string());
    let late = ListingReply::Listed(vec![plain("old", false)]);
    assert_eq!(
        job.poll_listing(&mut tab, late, false),
        Some("C:\\b".to_string())
    );
    assert!(tab.listing.is_empty());
    let reply = ListingReply::Listed(vec![plain("new", false)]);
    assert_eq!(job.poll_listing(&mut tab, reply, false), None);
    assert_eq!(names(&tab.listing), ["new"]);
    assert!(!job.running());
    tab.listing_dirty = true;
    job.poll_listing(&mut tab, ListingReply::Pending, false);
    job.poll_listing(&mut tab, ListingReply::Failed("no access".to_string()), false);
    assert_eq!(tab.listing_error, Some("no access".to_string()));
}
