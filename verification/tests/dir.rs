use libax::dir::{DirEntry, FileType, RawDirEntry, ReadDir, ReadDirStep};

fn raw(name: &str, t: FileType) -> RawDirEntry {
    RawDirEntry { name: name.to_string(), entry_type: t }
}

#[test]
fn path_joins_directory_and_name() {
    let e = DirEntry::new("/home/user", "a.txt".to_string(), FileType::File);
    assert_eq!(e.path(), "/home/user/a.txt");
    assert_eq!(e.file_name(), "a.txt");
    assert_eq!(e.file_type(), FileType::File);
}

#[test]
fn path_drops_trailing_slashes() {
    let e = DirEntry::new("/home/user///", "b".to_string(), FileType::Dir);
    assert_eq!(e.path(), "/home/user/b");
    let root = DirEntry::new("/", "etc".to_string(), FileType::Dir);
    assert_eq!(root.path(), "/etc");
    let empty = DirEntry::new("", "x".to_string(), FileType::SymLink);
    assert_eq!(empty.path(), "/x");
}

fn collect(rd: &mut ReadDir<'_>, batches: &mut Vec<Result<Vec<RawDirEntry>, &'static str>>) -> Vec<Result<(String, String, FileType), &'static str>> {
    let mut out = Vec::new();
    loop {
        match rd.step() {
            ReadDirStep::End => return out,
            ReadDirStep::Yield(d) => out.push(Ok((d.path(), d.file_name(), d.file_type()))),
            ReadDirStep::Refill => {
                let batch = if batches.is_empty() { Ok(Vec::new()) } else { batches.remove(0) };
                if let Some(e) = rd.refill(batch) {
                    out.push(Err(e));
                }
            }
        }
    }
}

#[test]
fn listing_skips_dot_entries() {
    let mut rd = ReadDir::new("/data/");
    let mut batches = vec![
        Ok(vec![raw(".", FileType::Dir), raw("..", FileType::Dir), raw("f", FileType::File)]),
        Ok(vec![raw(".", FileType::Dir)]),
        Ok(vec![raw("...", FileType::File), raw(".hidden", FileType::Fifo)]),
    ];
    let got = collect(&mut rd, &mut batches);
    assert_eq!(
        got,
        vec![
            Ok(("/data/f".to_string(), "f".to_string(), FileType::File)),
            Ok(("/data/...".to_string(), "...".to_string(), FileType::File)),
            Ok(("/data/.hidden".to_string(), ".hidden".to_string(), FileType::Fifo)),
        ]
    );
    assert!(matches!(rd.step(), ReadDirStep::End));
}

#[test]
fn error_ends_the_listing() {
    let mut rd = ReadDir::new("d");
    let mut batches = vec![Ok(vec![raw("a", FileType::Socket)]), Err("io"), Ok(vec![raw("never", FileType::File)])];
    let got = collect(&mut rd, &mut batches);
    assert_eq!(got, vec![Ok(("d/a".to_string(), "a".to_string(), FileType::Socket)), Err("io")]);
    assert!(matches!(rd.step(), ReadDirStep::End));
    assert!(matches!(rd.step(), ReadDirStep::End));
}

#[test]
fn empty_directory_yields_nothing() {
    let mut rd = ReadDir::new("/empty");
    assert!(matches!(rd.step(), ReadDirStep::Refill));
    assert!(rd.refill::<()>(Ok(Vec::new())).is_none());
    assert!(matches!(rd.step(), ReadDirStep::End));
}

#[test]
fn debug_form_quotes_the_path() {
    let e = DirEntry::new("/tmp/", "a\"b".to_string(), FileType::File);
    assert_eq!(e.debug_string(), "DirEntry(\"/tmp/a\\\"b\")");
    assert_eq!(libax::dir::dir_entry_debug("\"x\""), "DirEntry(\"x\")");
}
