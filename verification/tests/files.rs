use std::cell::RefCell;

use fileman::copy_walk::CopyWalk;
use fileman::fs_ops::{
    check_dest_dir, copy_item, copy_item_to, create_file, create_folder, move_item, rename_item,
    validate_name, ClipboardOp, FsErrorKind,
};
use fileman::delete_job::{delete_to_trash_bg, DeleteAsk, DeleteReply};
use fileman::progress::{
    copied_update, count_files, count_item, BackgroundOp, DeleteBatch, Deletion, FileCount,
    OpStatus, ProgressUpdate, TransferBatch, TransferItem,
};
use fileman::transfer::{
    clipboard_text, next_free_copy_name, paste_items, sort_out, transfer_dirs, transfer_status,
    PasteConflict,
};
use fileman::transfer_job::{
    copy_items_bg, move_items_bg, TransferAsk, TransferJob, TransferReply,
};

/// A disk in memory: `None` is a folder, `Some` a file with its contents.
struct Disk {
    items: RefCell<Vec<(String, Option<Vec<u8>>)>>,
}

impl Disk {
    fn new(items: &[(&str, Option<&[u8]>)]) -> Disk {
        Disk {
            items: RefCell::new(
                items
                    .iter()
                    .map(|(p, c)| (p.to_string(), c.map(|b| b.to_vec())))
                    .collect(),
            ),
        }
    }

    fn has(&self, p: &str) -> bool {
        self.items.borrow().iter().any(|(q, _)| q == p)
    }

    fn is_dir(&self, p: &str) -> bool {
        self.items.borrow().iter().any(|(q, c)| q == p && c.is_none())
    }

    fn read(&self, p: &str) -> Option<Vec<u8>> {
        self.items
            .borrow()
            .iter()
            .find(|(q, _)| q == p)
            .and_then(|(_, c)| c.clone())
    }

    fn write(&self, p: &str, content: Option<Vec<u8>>) {
        self.items.borrow_mut().push((p.to_string(), content));
    }

    fn remove(&self, p: &str) {
        let below = format!("{p}\\");
        self.items
            .borrow_mut()
            .retain(|(q, _)| q != p && !q.starts_with(&below));
    }

    fn children(&self, p: &str) -> Vec<String> {
        let below = format!("{p}\\");
        self.items
            .borrow()
            .iter()
            .filter_map(|(q, _)| q.strip_prefix(&below).map(|r| r.to_string()))
            .filter(|r| !r.contains('\\'))
            .collect()
    }

    fn rename(&self, from: &str, to: &str) {
        let below = format!("{from}\\");
        for (q, _) in self.items.borrow_mut().iter_mut() {
            if q == from {
                *q = to.to_string();
            } else if let Some(rest) = q.clone().strip_prefix(&below) {
                *q = format!("{to}\\{rest}");
            }
        }
    }

    fn copy_tree(&self, src: &str, dest: &str, total: u64) -> Result<u64, String> {
        let mut walk = CopyWalk::start(src.to_string(), dest.to_string(), 0);
        while let Some(item) = walk.next() {
            if self.is_dir(&item.src) {
                if !self.has(&item.dest) {
                    self.write(&item.dest, None);
                }
                walk.enter(&item, &self.children(&item.src));
            } else {
                if self.has(&item.dest) {
                    return Err(format!("destination already exists: {}", item.dest));
                }
                let done = walk.copied();
                let told = copied_update(&item, done, total);
                assert_eq!(told.files_done, done);
                self.write(&item.dest, self.read(&item.src));
            }
        }
        Ok(walk.files_done())
    }

    fn copy(&self, src: &str, dest_dir: &str) -> Result<String, FsErrorKind> {
        let on_disk = |p: &String| self.has(p);
        match copy_item(src, dest_dir, self.is_dir(dest_dir), &on_disk) {
            Ok(dest) => {
                self.copy_tree(src, &dest, 0).unwrap();
                Ok(dest)
            }
            Err(e) => Err(e.kind()),
        }
    }

    fn move_to(&self, src: &str, dest_dir: &str) -> Result<String, FsErrorKind> {
        let on_disk = |p: &String| self.has(p);
        match move_item(src, dest_dir, self.is_dir(dest_dir), &on_disk) {
            Ok(dest) => {
                self.rename(src, &dest);
                Ok(dest)
            }
            Err(e) => Err(e.kind()),
        }
    }

    fn count(&self, src: &str) -> FileCount {
        if self.is_dir(src) {
            let mut n: u64 = 0;
            for c in self.children(src) {
                n += count_item(self.count(&format!("{src}\\{c}")));
            }
            FileCount::Folder(n)
        } else {
            FileCount::File
        }
    }

    /// Carries a transfer out; what it reported, and how it ended. With
    /// `one_volume` false nothing can be renamed.
    fn run(&self, mut job: TransferJob, one_volume: bool) -> (Vec<ProgressUpdate>, OpStatus) {
        let mut told = Vec::new();
        loop {
            let reply = match job.ask() {
                TransferAsk::End(status) => {
                    assert!(!job.takes(&TransferReply::Done));
                    return (told, status);
                }
                TransferAsk::Report(update) => {
                    told.push(update);
                    TransferReply::Done
                }
                TransferAsk::Count(p) => TransferReply::Counted(self.count(&p)),
                TransferAsk::Look(p) => TransferReply::Answer(self.has(&p)),
                TransferAsk::Delete(p) => {
                    self.remove(&p);
                    TransferReply::Done
                }
                TransferAsk::Rename { from, to } => {
                    if one_volume {
                        self.rename(&from, &to);
                        TransferReply::Done
                    } else {
                        TransferReply::Failed("another volume".to_string())
                    }
                }
                TransferAsk::Enter(item) => {
                    if self.is_dir(&item.src) {
                        if !self.has(&item.dest) {
                            self.write(&item.dest, None);
                        }
                        TransferReply::Folder(self.children(&item.src))
                    } else {
                        TransferReply::File
                    }
                }
                TransferAsk::Copy(item) => match self.read(&item.src) {
                    Some(content) => {
                        self.write(&item.dest, Some(content));
                        TransferReply::Done
                    }
                    None => TransferReply::Failed("not found".to_string()),
                },
                TransferAsk::Remove(p) => {
                    self.remove(&p);
                    TransferReply::Done
                }
            };
            assert!(job.takes(&reply));
            job.take(reply);
        }
    }

    fn copy_items(&self, items: Vec<TransferItem>, dest: &str) -> OpStatus {
        self.run(copy_items_bg(items, dest.to_string()), true).1
    }
}

const HELLO: Option<&[u8]> = Some(b"hello");

#[test]
fn copies_a_file() {
    let disk = Disk::new(&[("C:\\t\\src", HELLO), ("C:\\t\\out", None)]);

    let copied = disk.copy("C:\\t\\src", "C:\\t\\out").unwrap();

    assert_eq!(copied, "C:\\t\\out\\src");
    assert_eq!(disk.read(&copied).unwrap(), b"hello");
}

#[test]
fn copies_a_directory_recursively() {
    let disk = Disk::new(&[
        ("C:\\t\\tree", None),
        ("C:\\t\\tree\\sub", None),
        ("C:\\t\\tree\\top.txt", Some(b"1")),
        ("C:\\t\\tree\\sub\\deep.txt", Some(b"2")),
        ("C:\\t\\out", None),
    ]);

    disk.copy("C:\\t\\tree", "C:\\t\\out").unwrap();

    assert_eq!(disk.read("C:\\t\\out\\tree\\top.txt").unwrap(), b"1");
    assert_eq!(disk.read("C:\\t\\out\\tree\\sub\\deep.txt").unwrap(), b"2");
}

#[test]
fn copy_refuses_to_overwrite_existing_destination() {
    let disk = Disk::new(&[("C:\\t", None), ("C:\\t\\a.txt", Some(b"old"))]);

    let err = disk.copy("C:\\t\\a.txt", "C:\\t").unwrap_err();
    assert_eq!(err, FsErrorKind::AlreadyExists);
    assert_eq!(disk.read("C:\\t\\a.txt").unwrap(), b"old");
}

#[test]
fn move_refuses_missing_destination_folder() {
    let disk = Disk::new(&[("C:\\t", None), ("C:\\t\\a.txt", Some(b"x"))]);

    let err = disk.move_to("C:\\t\\a.txt", "C:\\t\\missing").unwrap_err();
    assert_eq!(err, FsErrorKind::NotFound);
}

#[test]
fn moves_a_file_within_the_same_volume() {
    let disk = Disk::new(&[("C:\\t\\sub", None), ("C:\\t\\a.txt", Some(b"data"))]);

    disk.move_to("C:\\t\\a.txt", "C:\\t\\sub").unwrap();

    assert!(!disk.has("C:\\t\\a.txt"));
    assert_eq!(disk.read("C:\\t\\sub\\a.txt").unwrap(), b"data");
}

#[test]
fn moves_a_directory_and_keeps_contents() {
    let disk = Disk::new(&[
        ("C:\\t\\folder", None),
        ("C:\\t\\folder\\inner", None),
        ("C:\\t\\folder\\inner\\f.txt", Some(b"x")),
        ("C:\\t\\elsewhere", None),
    ]);

    disk.move_to("C:\\t\\folder", "C:\\t\\elsewhere").unwrap();

    assert!(!disk.has("C:\\t\\folder"));
    assert_eq!(
        disk.read("C:\\t\\elsewhere\\folder\\inner\\f.txt").unwrap(),
        b"x"
    );
}

#[test]
fn move_refuses_to_overwrite_existing_destination() {
    let disk = Disk::new(&[("C:\\t", None), ("C:\\t\\a.txt", Some(b"old"))]);

    let err = disk.move_to("C:\\t\\a.txt", "C:\\t").unwrap_err();
    assert_eq!(err, FsErrorKind::AlreadyExists);
    assert_eq!(disk.read("C:\\t\\a.txt").unwrap(), b"old");
}

#[test]
fn rename_updates_the_name_in_place() {
    let disk = Disk::new(&[("C:\\t\\before.txt", Some(b"z"))]);
    let on_disk = |p: &String| disk.has(p);

    let to = rename_item("C:\\t\\before.txt", "after.txt", &on_disk).unwrap();
    disk.rename("C:\\t\\before.txt", &to);

    assert!(!disk.has("C:\\t\\before.txt"));
    assert_eq!(disk.read("C:\\t\\after.txt").unwrap(), b"z");
}

#[test]
fn rename_rejects_bad_names_and_collisions() {
    let disk = Disk::new(&[("C:\\t\\a.txt", Some(b"z")), ("C:\\t\\b.txt", Some(b"y"))]);
    let on_disk = |p: &String| disk.has(p);
    let src = "C:\\t\\a.txt";

    assert_eq!(
        rename_item(src, "", &on_disk).unwrap_err().kind(),
        FsErrorKind::InvalidInput
    );
    assert_eq!(
        rename_item(src, "x\\y", &on_disk).unwrap_err().kind(),
        FsErrorKind::InvalidInput
    );
    assert_eq!(
        rename_item(src, "..", &on_disk).unwrap_err().kind(),
        FsErrorKind::InvalidInput
    );
    assert_eq!(
        rename_item(src, "b.txt", &on_disk).unwrap_err().kind(),
        FsErrorKind::AlreadyExists
    );
    // The source must be untouched by all rejected attempts.
    assert!(disk.has(src));
}

#[test]
fn creates_new_folder_and_file() {
    let disk = Disk::new(&[("C:\\t", None)]);
    let on_disk = |p: &String| disk.has(p);

    let folder = create_folder("C:\\t", "New Folder", &on_disk).unwrap();
    disk.write(&folder, None);
    assert!(disk.is_dir("C:\\t\\New Folder"));

    let file = create_file("C:\\t", "note.txt", &on_disk).unwrap();
    disk.write(&file, Some(Vec::new()));
    assert_eq!(disk.read("C:\\t\\note.txt").unwrap(), b"");
}

#[test]
fn create_refuses_collisions_and_bad_names() {
    let disk = Disk::new(&[("C:\\t", None)]);
    let on_disk = |p: &String| disk.has(p);
    let first = create_folder("C:\\t", "dup", &on_disk).unwrap();
    disk.write(&first, None);

    assert_eq!(
        create_folder("C:\\t", "dup", &on_disk).unwrap_err().kind(),
        FsErrorKind::AlreadyExists
    );
    assert_eq!(
        create_file("C:\\t", "a/b", &on_disk).unwrap_err().kind(),
        FsErrorKind::InvalidInput
    );
    assert_eq!(
        create_file("C:\\t", "", &on_disk).unwrap_err().kind(),
        FsErrorKind::InvalidInput
    );
}

#[test]
fn errors_say_what_is_wrong() {
    assert_eq!(
        check_dest_dir("C:\\x", false).unwrap_err().message,
        "destination folder not found: C:\\x"
    );
    assert!(check_dest_dir("C:\\x", true).is_ok());
    assert_eq!(
        validate_name(" a\"b/ ").unwrap_err().message,
        "invalid name: \"a\\\"b/\""
    );
    assert_eq!(validate_name("  ok.txt ").unwrap(), "ok.txt");
    let none = |_: &String| false;
    let all = |_: &String| true;
    let err = copy_item("C:\\", "D:\\", true, &none).unwrap_err();
    assert_eq!(err.kind(), FsErrorKind::InvalidInput);
    assert_eq!(err.message, "source has no file name");
    assert_eq!(
        copy_item("C:\\a", "D:\\", true, &all).unwrap_err().message,
        "destination already exists: D:\\a"
    );
    assert_eq!(
        rename_item("C:\\", "x", &none).unwrap_err().message,
        "source has no parent folder"
    );
    let exact = copy_item_to("D:\\b\\c.txt", false).unwrap();
    assert_eq!(exact.parent, Some("D:\\b".to_string()));
    assert!(copy_item_to("D:\\b\\c.txt", true).is_err());
}

#[test]
fn copy_items_bg_copies_file() {
    let disk = Disk::new(&[
        ("C:\\t\\hello.txt", Some(b"test content")),
        ("C:\\t\\out", None),
    ]);
    let dest = "C:\\t\\out";
    let status = disk.copy_items(vec![TransferItem::plain("C:\\t\\hello.txt".to_string())], dest);
    assert_eq!(status, OpStatus::Completed(format!("Copied into {dest}")));
    assert!(disk.has("C:\\t\\out\\hello.txt"));
}

#[test]
fn copy_items_bg_overwrite_replaces_existing_destination() {
    let disk = Disk::new(&[
        ("C:\\t\\hello.txt", Some(b"new content")),
        ("C:\\t\\out", None),
        ("C:\\t\\out\\hello.txt", Some(b"old content")),
    ]);
    let dest = "C:\\t\\out";
    let item = TransferItem {
        src: "C:\\t\\hello.txt".to_string(),
        dest_name: None,
        overwrite: true,
    };
    let status = disk.copy_items(vec![item], dest);
    assert_eq!(status, OpStatus::Completed(format!("Copied into {dest}")));
    assert_eq!(disk.read("C:\\t\\out\\hello.txt").unwrap(), b"new content");
}

#[test]
fn copy_items_bg_dest_name_lands_under_fresh_name() {
    let disk = Disk::new(&[
        ("C:\\t\\hello.txt", Some(b"kept both")),
        ("C:\\t\\out", None),
        ("C:\\t\\out\\hello.txt", Some(b"original")),
    ]);
    let dest = "C:\\t\\out";
    let item = TransferItem {
        src: "C:\\t\\hello.txt".to_string(),
        dest_name: Some("hello (copy).txt".to_string()),
        overwrite: false,
    };
    let status = disk.copy_items(vec![item], dest);
    assert_eq!(status, OpStatus::Completed(format!("Copied into {dest}")));
    assert_eq!(disk.read("C:\\t\\out\\hello.txt").unwrap(), b"original");
    assert_eq!(
        disk.read("C:\\t\\out\\hello (copy).txt").unwrap(),
        b"kept both"
    );
}

#[test]
fn copy_items_bg_fails_on_nested_collision() {
    let disk = Disk::new(&[
        ("C:\\t\\tree", None),
        ("C:\\t\\tree\\f.txt", Some(b"new")),
        ("C:\\t\\out", None),
        ("C:\\t\\out\\tree", None),
        ("C:\\t\\out\\tree\\f.txt", Some(b"old")),
    ]);
    let status = disk.copy_items(
        vec![TransferItem::plain("C:\\t\\tree".to_string())],
        "C:\\t\\out",
    );
    assert!(matches!(status, OpStatus::Failed(_)));
    assert_eq!(disk.read("C:\\t\\out\\tree\\f.txt").unwrap(), b"old");
}

#[test]
fn move_items_bg_moves_file() {
    let disk = Disk::new(&[("C:\\t\\hello.txt", Some(b"data")), ("C:\\t\\out", None)]);
    let dest = "C:\\t\\out";
    let item = TransferItem::plain("C:\\t\\hello.txt".to_string());
    let (_, status) = disk.run(move_items_bg(vec![item], dest.to_string()), true);
    assert_eq!(status, OpStatus::Completed(format!("Moved into {dest}")));
    assert!(!disk.has("C:\\t\\hello.txt"));
    assert!(disk.has("C:\\t\\out\\hello.txt"));
}

fn report(update: &ProgressUpdate) -> (u64, u64, &str) {
    (update.files_done, update.files_total, update.current_file.as_str())
}

#[test]
fn a_copied_tree_is_reported_file_by_file() {
    let disk = Disk::new(&[
        ("C:\\t", None),
        ("C:\\t\\a", Some(b"1")),
        ("C:\\t\\sub", None),
        ("C:\\t\\sub\\b", Some(b"2")),
        ("C:\\x", Some(b"3")),
        ("D:\\", None),
    ]);
    let items = vec![
        TransferItem::plain("C:\\t".to_string()),
        TransferItem::plain("C:\\x".to_string()),
    ];
    let (told, status) = disk.run(copy_items_bg(items, "D:\\".to_string()), true);
    assert_eq!(status, OpStatus::Completed("Copied into D:\\".to_string()));
    let told: Vec<(u64, u64, &str)> = told.iter().map(report).collect();
    assert_eq!(
        told,
        vec![(0, 3, "t"), (1, 3, "a"), (2, 3, "b"), (2, 3, "x"), (3, 3, "x")]
    );
    assert_eq!(disk.read("D:\\t\\sub\\b").unwrap(), b"2");
    assert!(disk.has("C:\\t\\sub\\b"));
}

#[test]
fn a_move_to_another_volume_copies_and_then_removes() {
    let disk = Disk::new(&[
        ("C:\\t", None),
        ("C:\\t\\a", Some(b"1")),
        ("C:\\empty", None),
        ("D:\\", None),
    ]);
    let items = vec![
        TransferItem::plain("C:\\t".to_string()),
        TransferItem::plain("C:\\empty".to_string()),
    ];
    let (told, status) = disk.run(move_items_bg(items, "D:\\".to_string()), false);
    assert_eq!(status, OpStatus::Completed("Moved into D:\\".to_string()));
    let told: Vec<(u64, u64, &str)> = told.iter().map(report).collect();
    assert_eq!(told, vec![(1, 1, "a")]);
    assert_eq!(disk.read("D:\\t\\a").unwrap(), b"1");
    assert!(disk.is_dir("D:\\empty"));
    assert!(!disk.has("C:\\t") && !disk.has("C:\\t\\a") && !disk.has("C:\\empty"));
}

#[test]
fn a_renamed_folder_counts_with_its_files() {
    let disk = Disk::new(&[
        ("C:\\t", None),
        ("C:\\t\\a", Some(b"1")),
        ("C:\\t\\b", Some(b"2")),
        ("D:\\", None),
    ]);
    let items = vec![TransferItem::plain("C:\\t".to_string())];
    let (told, _) = disk.run(move_items_bg(items, "D:\\".to_string()), true);
    let told: Vec<(u64, u64, &str)> = told.iter().map(report).collect();
    assert_eq!(told, vec![(2, 2, "")]);
    assert_eq!(count_files(&vec![FileCount::File, FileCount::Folder(4)]), 5);
}

#[test]
fn a_failed_item_leaves_the_others() {
    let disk = Disk::new(&[
        ("C:\\a", Some(b"1")),
        ("C:\\b", Some(b"2")),
        ("D:\\", None),
        ("D:\\a", Some(b"0")),
    ]);
    let items = vec![
        TransferItem::plain("C:\\".to_string()),
        TransferItem::plain("C:\\a".to_string()),
        TransferItem::plain("C:\\missing".to_string()),
        TransferItem::plain("C:\\b".to_string()),
    ];
    let (told, status) = disk.run(copy_items_bg(items.clone(), "D:\\".to_string()), true);
    assert_eq!(
        status,
        OpStatus::Failed(
            "C:\\: source has no file name\nC:\\a: destination already exists: D:\\a\n\
             C:\\missing: not found"
                .to_string()
        )
    );
    assert_eq!(report(told.last().unwrap()), (1, 4, "b"));
    assert_eq!(disk.read("D:\\a").unwrap(), b"0");
    assert_eq!(disk.read("D:\\b").unwrap(), b"2");
    let (_, status) = disk.run(
        move_items_bg(items[1..2].to_vec(), "D:\\".to_string()),
        true,
    );
    assert_eq!(
        status,
        OpStatus::Failed("C:\\a: destination already exists: D:\\a".to_string())
    );
    assert!(disk.has("C:\\a"));
}

#[test]
fn a_move_replaces_what_it_may_replace() {
    let disk = Disk::new(&[
        ("C:\\a", Some(b"new")),
        ("D:\\", None),
        ("D:\\a", Some(b"old")),
    ]);
    let item = TransferItem {
        src: "C:\\a".to_string(),
        dest_name: None,
        overwrite: true,
    };
    let (_, status) = disk.run(move_items_bg(vec![item], "D:\\".to_string()), true);
    assert_eq!(status, OpStatus::Completed("Moved into D:\\".to_string()));
    assert_eq!(disk.read("D:\\a").unwrap(), b"new");
    assert!(!disk.has("C:\\a"));
}

#[test]
fn a_transfer_refuses_what_does_not_answer_its_question() {
    let items = vec![
        TransferItem::plain("C:\\a".to_string()),
        TransferItem::plain("C:\\b".to_string()),
    ];
    let mut job = copy_items_bg(items, "D:\\".to_string());
    assert!(!job.takes(&TransferReply::Done));
    assert!(!job.takes(&TransferReply::Answer(true)));
    job.take(TransferReply::Counted(FileCount::Folder(u64::MAX)));
    assert!(!job.takes(&TransferReply::Counted(FileCount::File)));
    assert!(job.takes(&TransferReply::Counted(FileCount::Folder(0))));
    let nothing = move_items_bg(vec![], "D:\\".to_string());
    assert_eq!(
        nothing.ask(),
        TransferAsk::End(OpStatus::Completed("Moved into D:\\".to_string()))
    );
}

#[test]
fn a_path_is_deleted_for_good_only_where_the_bin_refuses_it() {
    let paths = vec!["C:\\a".to_string(), "\\\\s\\x\\b".to_string(), "C:\\c".to_string()];
    let mut job = delete_to_trash_bg(paths);
    let mut steps: Vec<String> = Vec::new();
    let status = loop {
        let reply = match job.ask() {
            DeleteAsk::End(status) => break status,
            DeleteAsk::Report(u) => {
                steps.push(format!("{}/{} {}", u.files_done, u.files_total, u.current_file));
                assert!(!job.takes(&DeleteReply::Failed("".to_string())));
                DeleteReply::Done
            }
            DeleteAsk::Trash(p) => {
                steps.push(format!("bin {p}"));
                if p == "C:\\a" {
                    DeleteReply::Done
                } else {
                    DeleteReply::Failed("no bin".to_string())
                }
            }
            DeleteAsk::Delete(p) => {
                steps.push(format!("delete {p}"));
                if p == "C:\\c" {
                    DeleteReply::Failed("in use".to_string())
                } else {
                    DeleteReply::Done
                }
            }
        };
        assert!(job.takes(&reply));
        job.take(reply);
    };
    assert_eq!(status, OpStatus::Failed("C:\\c: in use".to_string()));
    assert!(!job.takes(&DeleteReply::Done));
    assert_eq!(
        steps,
        vec![
            "0/3 a",
            "bin C:\\a",
            "1/3 b",
            "bin \\\\s\\x\\b",
            "delete \\\\s\\x\\b",
            "2/3 c",
            "bin C:\\c",
            "delete C:\\c",
            "3/3 "
        ]
    );
}

#[test]
fn failures_are_listed_line_by_line() {
    let mut batch = TransferBatch::new(2);
    batch.record("C:\\a", Err("no access".to_string()));
    batch.record("C:\\b", Err("too long".to_string()));
    assert_eq!(
        batch.finish_copy("D:\\"),
        OpStatus::Failed("C:\\a: no access\nC:\\b: too long".to_string())
    );
    let mut deletions = DeleteBatch::new(3);
    deletions.record("C:\\a", Deletion::Trashed);
    assert_eq!(
        deletions.finish(),
        OpStatus::Completed("Sent to Recycle Bin".to_string())
    );
    deletions.record("\\\\s\\x\\a", Deletion::Permanent);
    assert_eq!(
        deletions.finish(),
        OpStatus::Completed("Deleted 1 item(s) permanently (network drive)".to_string())
    );
    deletions.record("C:\\b", Deletion::Failed("in use".to_string()));
    assert_eq!(
        deletions.finish(),
        OpStatus::Failed("C:\\b: in use".to_string())
    );
    assert_eq!(deletions.update(1, "C:\\x\\y.txt").current_file, "y.txt");
    assert_eq!(deletions.last_update().files_done, 3);
}

#[test]
fn the_last_report_counts() {
    let mut op = BackgroundOp::counting();
    assert_eq!(op.progress.current_file, "Counting…");
    let update = |n: u64| ProgressUpdate {
        files_done: n,
        files_total: 5,
        current_file: "f".to_string(),
    };
    assert!(op.poll(vec![update(1), update(2)], vec![]));
    assert_eq!(op.progress.files_done, 2);
    assert!(!op.poll(vec![], vec![OpStatus::Completed("done".to_string())]));
    assert_eq!(op.status, OpStatus::Completed("done".to_string()));
    assert_eq!(BackgroundOp::deleting(4).progress.files_total, 4);
}

#[test]
fn cutting_skips_what_is_already_there() {
    let clipboard = vec!["C:\\a\\x.txt".to_string(), "C:\\b\\y.txt".to_string()];
    assert_eq!(
        paste_items(&clipboard, "C:\\a\\", Some(ClipboardOp::Cut)),
        vec!["C:\\b\\y.txt".to_string()]
    );
    assert_eq!(
        paste_items(&clipboard, "C:\\a", Some(ClipboardOp::Copy)),
        clipboard
    );
    assert_eq!(clipboard_text(&clipboard), "C:\\a\\x.txt\nC:\\b\\y.txt");
}

#[test]
fn colliding_items_are_set_apart() {
    let on_disk = |p: &String| p == "D:\\x.txt";
    let sorted = sort_out(
        vec!["C:\\x.txt".to_string(), "C:\\y.txt".to_string(), "E:\\".to_string()],
        "D:\\",
        &on_disk,
    );
    assert_eq!(sorted.conflicts, vec!["C:\\x.txt".to_string()]);
    assert_eq!(sorted.resolved.len(), 2);
    assert_eq!(sorted.resolved[0], TransferItem::plain("C:\\y.txt".to_string()));
}

#[test]
fn copies_get_free_names() {
    let on_disk = |p: &String| p == "D:\\x (copy).txt" || p == "D:\\x (2).txt";
    let mut taken = vec!["x (3).txt".to_string()];
    assert_eq!(
        next_free_copy_name("D:\\", "C:\\x.txt", &mut taken, &on_disk),
        Some("x (4).txt".to_string())
    );
    assert_eq!(
        next_free_copy_name("D:\\", "C:\\x.txt", &mut taken, &on_disk),
        Some("x (5).txt".to_string())
    );
    assert_eq!(
        next_free_copy_name("D:\\", "C:\\README", &mut taken, &on_disk),
        Some("README (copy)".to_string())
    );
}

#[test]
fn conflicts_are_decided_one_by_one_or_at_once() {
    let on_disk = |p: &String| p == "D:\\x.txt" || p == "D:\\y.txt";
    let mut c = PasteConflict {
        dest_dir: "D:\\".to_string(),
        op: Some(ClipboardOp::Cut),
        conflicts: vec!["C:\\x.txt".to_string(), "C:\\y.txt".to_string()],
        resolved: vec![],
    };
    assert_eq!(
        c.question()[0],
        "2 of the items you're moving already exist in \"D:\\\" with the same names."
    );
    assert!(c.resolve(true, false, &on_disk));
    assert_eq!(c.conflicts.len(), 1);
    assert!(c.resolved[0].overwrite);
    assert_eq!(c.question()[0], "\"y.txt\" already exists in \"D:\\\".");
    assert!(c.resolve(false, true, &on_disk));
    assert!(c.conflicts.is_empty());
    assert_eq!(c.resolved[1].dest_name, Some("y (copy).txt".to_string()));
    assert_eq!(
        c.resolved[1].dest_path("D:\\"),
        Some("D:\\y (copy).txt".to_string())
    );
}

#[test]
fn a_move_changes_both_ends() {
    let items = vec![
        TransferItem::plain("C:\\a\\x".to_string()),
        TransferItem::plain("C:\\b\\y".to_string()),
    ];
    assert_eq!(
        transfer_dirs(&items, "D:\\", Some(ClipboardOp::Cut)),
        vec!["D:\\".to_string(), "C:\\a".to_string(), "C:\\b".to_string()]
    );
    assert_eq!(
        transfer_dirs(&items, "D:\\", Some(ClipboardOp::Copy)),
        vec!["D:\\".to_string()]
    );
    assert_eq!(
        transfer_status("D:\\", Some(ClipboardOp::Cut)),
        "Moving into D:\\…"
    );
    assert_eq!(transfer_status("D:\\", None), "Copying into D:\\…");
}
