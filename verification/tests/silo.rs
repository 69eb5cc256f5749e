use assert_fs::prelude::FileWriteBin;
use assert_fs::prelude::FileWriteStr;
use assert_fs::prelude::PathChild;
use assert_fs::prelude::PathCreateDir;
use assert_fs::TempDir;
use rust_silos::scan::scan_directory;
use rust_silos::scan::snapshot_directory;
use rust_silos::Error;
use rust_silos::Silo;
use rust_silos::SiloSet;
use std::collections::HashSet;

/// Creates the standard fixture tree under `tests/data` in a fresh
/// temporary directory and returns the directory together with the root's
/// path as a string.
fn data_dir() -> (TempDir, String) {
    let tmp = TempDir::new().unwrap();
    tmp.child("tests/data/alpha.txt")
        .write_str("alpha file content\n")
        .unwrap();
    tmp.child("tests/data/beta.txt")
        .write_str("beta file content\n")
        .unwrap();
    tmp.child("tests/data/subdir/gamma.txt")
        .write_str("gamma file content\n")
        .unwrap();
    let root = tmp
        .child("tests/data")
        .path()
        .to_str()
        .unwrap()
        .to_owned();
    (tmp, root)
}

fn embedded_silo(root: &str) -> Silo {
    Silo::from_embedded(snapshot_directory(root).unwrap())
}

fn dynamic_silo(root: &str) -> Silo {
    Silo::new(root)
}

fn static_silo(root: &str) -> Silo {
    let leaked: &'static str = Box::leak(root.to_owned().into_boxed_str());
    Silo::from_static(leaked)
}

/// Tests that an embedded silo can retrieve a known file by path.
#[test]
fn test_embed_silo_get_file() {
    let (_tmp, root) = data_dir();
    let silo = embedded_silo(&root);
    for file in silo.iter() {
        println!("File in embedded silo: {}", file.path());
    }
    let file = silo.get_file("alpha.txt").unwrap();
    assert_eq!(file.path(), "alpha.txt");
}

/// Tests that an embedded silo returns None for a missing file.
#[test]
fn test_embed_silo_get_file_not_found() {
    let (_tmp, root) = data_dir();
    let silo = embedded_silo(&root);
    assert!(silo.get_file("notfound.txt").is_none());
}

/// Tests that iterating an embedded silo yields all expected files.
#[test]
fn test_embed_silo_iter() {
    let (_tmp, root) = data_dir();
    let silo = embedded_silo(&root);
    let files: HashSet<_> = silo.iter().into_iter().map(|f| f.path().to_owned()).collect();
    assert!(files.contains("alpha.txt"));
    assert!(files.contains("beta.txt"));
    assert!(files.contains("subdir/gamma.txt"));
}

/// Tests that a static silo can retrieve a known file by path.
#[test]
fn test_dyn_silo_get_file() {
    let (_tmp, root) = data_dir();
    let silo = static_silo(&root);
    let file = silo.get_file("beta.txt").unwrap();
    assert_eq!(file.path(), "beta.txt");
}

/// Tests that a static silo returns None for a missing file.
#[test]
fn test_dyn_silo_get_file_not_found() {
    let (_tmp, root) = data_dir();
    let silo = static_silo(&root);
    assert!(silo.get_file("notfound.txt").is_none());
}

/// Tests that iterating a static silo yields all expected files.
#[test]
fn test_dyn_silo_iter() {
    let (_tmp, root) = data_dir();
    let silo = static_silo(&root);
    let files: HashSet<_> = silo.iter().into_iter().map(|f| f.path().to_owned()).collect();
    assert!(files.contains("alpha.txt"));
    assert!(files.contains("beta.txt"));
    assert!(files.contains("subdir/gamma.txt"));
}

/// Tests that the file extension is correctly reported.
#[test]
fn test_file_extension() {
    let (_tmp, root) = data_dir();
    let silo = embedded_silo(&root);
    let file = silo.get_file("alpha.txt").unwrap();
    assert_eq!(file.extension(), Some("txt"));
}

/// Tests that is_embedded returns true for embedded files.
#[test]
fn test_file_is_embedded() {
    let (_tmp, root) = data_dir();
    let silo = embedded_silo(&root);
    let file = silo.get_file("alpha.txt").unwrap();
    assert!(file.is_embedded());
}

/// Tests that is_embedded returns false for dynamic files.
#[test]
fn test_file_is_dynamic() {
    let (_tmp, root) = data_dir();
    let silo = static_silo(&root);
    let file = silo.get_file("alpha.txt").unwrap();
    assert!(!file.is_embedded());
}

/// Tests that absolute_path returns Some for dynamic files.
#[test]
fn test_file_absolute_path_dyn() {
    let (_tmp, root) = data_dir();
    let silo = static_silo(&root);
    let file = silo.get_file("alpha.txt").unwrap();
    assert!(file.absolute_path().is_some());
}

/// Tests that absolute_path returns None for embedded files.
#[test]
fn test_file_absolute_path_embed() {
    let (_tmp, root) = data_dir();
    let silo = embedded_silo(&root);
    let file = silo.get_file("alpha.txt").unwrap();
    assert!(file.absolute_path().is_none());
}

/// Tests that Silo::from_embedded and into_dynamic create correct silo types.
#[test]
fn test_silo_from_embedded_and_path() {
    let (_tmp, root) = data_dir();
    let embed = embedded_silo(&root);
    let dyns = embed.clone().into_dynamic();
    assert!(embed.is_embedded());
    assert!(dyns.is_dynamic());
}

/// Tests that auto_dynamic switches to dynamic mode when development mode
/// is selected.
#[test]
fn test_silo_auto_dynamic() {
    let (_tmp, root) = data_dir();
    let embed = embedded_silo(&root);
    let auto = embed.auto_dynamic(true);
    assert!(auto.is_dynamic() || auto.is_embedded());
}

/// Tests that SiloSet can find a file present in any member silo.
#[test]
fn test_silo_set_get_file() {
    let (_tmp, root) = data_dir();
    let s1 = embedded_silo(&root);
    let s2 = static_silo(&root);
    let set = SiloSet::new(vec![s1, s2]);
    assert!(set.get_file("alpha.txt").is_some());
}

/// Tests that SiloSet::iter yields all files from all silos.
#[test]
fn test_silo_set_iter() {
    let (_tmp, root) = data_dir();
    let s1 = embedded_silo(&root);
    let s2 = static_silo(&root);
    let set = SiloSet::new(vec![s1, s2]);
    let files: Vec<_> = set.iter();
    assert!(!files.is_empty());
}

/// Tests that SiloSet::iter_override yields unique files only.
#[test]
fn test_silo_set_iter_override() {
    let (_tmp, root) = data_dir();
    let s1 = embedded_silo(&root);
    let s2 = static_silo(&root);
    let set = SiloSet::new(vec![s1, s2]);
    let files: Vec<_> = set.iter_override();
    assert!(!files.is_empty());
}

/// Tests that embedded and dynamic silos yield the same files and contents.
#[test]
fn test_embed_vs_dyn_parity() {
    let (_tmp, root) = data_dir();
    let embed = embedded_silo(&root);
    let dyns = static_silo(&root);
    let embed_files: HashSet<_> =
        embed.iter().into_iter().map(|f| f.path().to_owned()).collect();
    let dyn_files: HashSet<_> = dyns.iter().into_iter().map(|f| f.path().to_owned()).collect();
    assert_eq!(embed_files, dyn_files);
    for path in embed_files {
        let ef = embed.get_file(&path).unwrap();
        let df = dyns.get_file(&path).unwrap();
        let eb = ef.read_bytes().unwrap();
        let db = df.read_bytes().unwrap();
        assert_eq!(eb, db, "File content mismatch for {path}");
    }
}

/// Tests that embedded file metadata is correct.
#[test]
fn test_embed_file_metadata() {
    let (_tmp, root) = data_dir();
    let silo = embedded_silo(&root);
    let file = silo.get_file("alpha.txt").unwrap();
    assert!(file.path().ends_with("alpha.txt"));
}

/// Tests that dynamic file metadata is correct.
#[test]
fn test_dyn_file_metadata() {
    let (_tmp, root) = data_dir();
    let silo = static_silo(&root);
    let file = silo.get_file("alpha.txt").unwrap();
    assert!(file.path().ends_with("alpha.txt"));
}

/// Tests reading bytes from an embedded file.
#[test]
fn test_embed_file_read_bytes() {
    let (_tmp, root) = data_dir();
    let silo = embedded_silo(&root);
    let file = silo.get_file("alpha.txt").unwrap();
    let buf = file.read_bytes().unwrap();
    assert!(buf.starts_with(b"alpha file content"));
}

/// Tests reading bytes from a dynamic file.
#[test]
fn test_dyn_file_read_bytes() {
    let (_tmp, root) = data_dir();
    let silo = static_silo(&root);
    let file = silo.get_file("alpha.txt").unwrap();
    let buf = file.read_bytes().unwrap();
    assert!(buf.starts_with(b"alpha file content"));
}

/// Tests reading a string from an embedded file.
#[test]
fn test_embed_file_read_str() {
    let (_tmp, root) = data_dir();
    let silo = embedded_silo(&root);
    let file = silo.get_file("alpha.txt").unwrap();
    let buf = file.read_string().unwrap();
    assert!(buf.contains("alpha file content"));
}

/// Tests reading a string from a dynamic file.
#[test]
fn test_dyn_file_read_str() {
    let (_tmp, root) = data_dir();
    let silo = static_silo(&root);
    let file = silo.get_file("alpha.txt").unwrap();
    let buf = file.read_string().unwrap();
    assert!(buf.contains("alpha file content"));
}

/// Tests reading a file from a subdirectory (embedded).
#[test]
fn test_embed_file_subdir() {
    let (_tmp, root) = data_dir();
    let silo = embedded_silo(&root);
    let file = silo.get_file("subdir/gamma.txt").unwrap();
    let buf = file.read_string().unwrap();
    assert!(buf.contains("gamma file content"));
}

/// Tests reading a file from a subdirectory (dynamic).
#[test]
fn test_dyn_file_subdir() {
    let (_tmp, root) = data_dir();
    let silo = static_silo(&root);
    let file = silo.get_file("subdir/gamma.txt").unwrap();
    let buf = file.read_string().unwrap();
    assert!(buf.contains("gamma file content"));
}

/// Tests size/modified accessors for embedded files.
#[test]
fn test_file_metadata_accessors_embed() {
    let (_tmp, root) = data_dir();
    let silo = embedded_silo(&root);
    let file = silo.get_file("alpha.txt").unwrap();
    let meta = file.meta().unwrap();
    assert!(meta.size > 0);
    let _ = meta.modified;
}

/// Tests size/modified accessors for dynamic files.
#[test]
fn test_file_metadata_accessors_dynamic() {
    let (_tmp, root) = data_dir();
    let silo = dynamic_silo(&root);
    let file = silo.get_file("alpha.txt").unwrap();
    let meta = file.meta().unwrap();
    assert!(meta.size > 0);
    let _ = meta.modified;
}

#[test]
fn test_lookup_blocks_traversal() {
    let tmp = TempDir::new().unwrap();
    tmp.child("root/ok.txt").write_str("ok").unwrap();

    // Sibling file outside the root.
    tmp.child("outside.txt").write_str("nope").unwrap();

    let root = tmp.child("root").path().to_str().unwrap().to_owned();
    let silo = Silo::new(&root);
    assert!(silo.get_file("ok.txt").is_some());
    assert!(silo.get_file("../outside.txt").is_none());
}

/// A later silo in a set fully shadows an earlier one for the same path,
/// and the deduplicating walk yields exactly the winning copy.
#[test]
fn test_override_precedence() {
    let tmp_a = TempDir::new().unwrap();
    tmp_a.child("low/shared.txt").write_str("from low").unwrap();
    let tmp_b = TempDir::new().unwrap();
    tmp_b.child("high/shared.txt").write_str("from high").unwrap();
    let root_a = tmp_a.child("low").path().to_str().unwrap().to_owned();
    let root_b = tmp_b.child("high").path().to_str().unwrap().to_owned();
    let set = SiloSet::new(vec![embedded_silo(&root_a), embedded_silo(&root_b)]);
    let won = set.get_file("shared.txt").unwrap();
    assert_eq!(won.read_string().unwrap(), "from high");
    let unique: Vec<_> = set.iter_override();
    let shared: Vec<_> = unique
        .iter()
        .filter(|f| f.path() == "shared.txt")
        .collect();
    assert_eq!(shared.len(), 1);
    assert_eq!(shared[0].read_string().unwrap(), "from high");
}

/// The plain walk of a set keeps one record per member silo for a shared
/// path.
#[test]
fn test_non_override_enumeration() {
    let tmp_a = TempDir::new().unwrap();
    tmp_a.child("low/shared.txt").write_str("from low").unwrap();
    let tmp_b = TempDir::new().unwrap();
    tmp_b.child("high/shared.txt").write_str("from high").unwrap();
    let root_a = tmp_a.child("low").path().to_str().unwrap().to_owned();
    let root_b = tmp_b.child("high").path().to_str().unwrap().to_owned();
    let set = SiloSet::new(vec![embedded_silo(&root_a), embedded_silo(&root_b)]);
    let all: Vec<_> = set.iter();
    let shared: Vec<_> = all.iter().filter(|f| f.path() == "shared.txt").collect();
    assert_eq!(shared.len(), 2);
}

/// A final segment without a dot reports no extension.
#[test]
fn test_extension_without_dot() {
    let tmp = TempDir::new().unwrap();
    tmp.child("data/Makefile").write_str("all:\n").unwrap();
    let root = tmp.child("data").path().to_str().unwrap().to_owned();
    let silo = embedded_silo(&root);
    let file = silo.get_file("Makefile").unwrap();
    assert_eq!(file.extension(), None);
}

/// The recorded size of an embedded file is exactly its byte count.
#[test]
fn test_embed_meta_exact() {
    let (_tmp, root) = data_dir();
    let silo = embedded_silo(&root);
    let file = silo.get_file("alpha.txt").unwrap();
    let meta = file.meta().unwrap();
    assert_eq!(meta.size, "alpha file content\n".len());
    assert_eq!(file.read_bytes().unwrap().len(), meta.size);
}

/// Two scans of an unchanged directory yield the same ordered list of
/// relative paths, and that order is sorted.
#[test]
fn test_scan_deterministic() {
    let (_tmp, root) = data_dir();
    let (_root_a, records_a) = scan_directory(&root).unwrap();
    let (_root_b, records_b) = scan_directory(&root).unwrap();
    let paths_a: Vec<_> = records_a.iter().map(|r| r.rel_path.clone()).collect();
    let paths_b: Vec<_> = records_b.iter().map(|r| r.rel_path.clone()).collect();
    assert_eq!(paths_a, paths_b);
    assert_eq!(paths_a, vec!["alpha.txt", "beta.txt", "subdir/gamma.txt"]);
}

/// A snapshot of an empty directory is empty but well formed.
#[test]
fn test_empty_dir_snapshot() {
    let tmp = TempDir::new().unwrap();
    tmp.child("empty").create_dir_all().unwrap();
    let root = tmp.child("empty").path().to_str().unwrap().to_owned();
    let silo = embedded_silo(&root);
    assert!(silo.get_file("anything.txt").is_none());
    assert!(silo.iter().is_empty());
}

/// Reading text from a file whose bytes are not valid UTF-8 fails with a
/// decode error, while reading bytes succeeds.
#[test]
fn test_read_str_decode_error() {
    let tmp = TempDir::new().unwrap();
    tmp.child("data/blob.bin")
        .write_binary(&[0xffu8, 0xfe, 0x00, 0x80])
        .unwrap();
    let root = tmp.child("data").path().to_str().unwrap().to_owned();
    let silo = embedded_silo(&root);
    let file = silo.get_file("blob.bin").unwrap();
    assert_eq!(file.read_bytes().unwrap(), vec![0xffu8, 0xfe, 0x00, 0x80]);
    assert!(matches!(file.read_string(), Err(Error::DecodeError)));
}

/// A dynamic file whose backing file disappears between lookup and read
/// fails with an I/O error.
#[test]
fn test_dyn_read_io_error() {
    let tmp = TempDir::new().unwrap();
    tmp.child("data/here.txt").write_str("here").unwrap();
    let root = tmp.child("data").path().to_str().unwrap().to_owned();
    let silo = dynamic_silo(&root);
    let file = silo.get_file("here.txt").unwrap();
    tmp.close().unwrap();
    assert!(matches!(file.read_bytes(), Err(Error::IoError { .. })));
    assert!(matches!(file.meta(), Err(Error::IoError { .. })));
}

/// The borrowed embedded bytes are the same bytes an owned read returns;
/// a filesystem-backed file has none in memory.
#[test]
fn test_embedded_bytes_borrow() {
    let (_tmp, root) = data_dir();
    let embed = embedded_silo(&root);
    let ef = embed.get_file("alpha.txt").unwrap();
    let borrowed = ef.embedded_bytes().unwrap().clone();
    assert_eq!(borrowed, ef.read_bytes().unwrap());
    let dyns = dynamic_silo(&root);
    let df = dyns.get_file("alpha.txt").unwrap();
    assert!(df.embedded_bytes().is_none());
}
