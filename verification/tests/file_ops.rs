use appz_wsl_mcp::services::file_ops::{EditOp, FileOpsService, TreeEntry};

fn edit(old: &str, new: &str) -> EditOp {
    EditOp { old_text: old.to_string(), new_text: new.to_string() }
}

fn find<'a>(es: &'a [TreeEntry], name: &str) -> &'a TreeEntry {
    es.iter().find(|e| e.name == name).unwrap()
}

#[test]
fn insert_tree_creates_missing_entries() {
    let mut es: Vec<TreeEntry> = Vec::new();
    FileOpsService::insert_tree(&mut es, &["a", "b", "c"], "FILE");
    assert_eq!(es.len(), 1);
    let a = find(&es, "a");
    assert_eq!(a.entry_type, "DIR");
    let b = find(a.children.as_ref().unwrap(), "b");
    assert_eq!(b.entry_type, "DIR");
    let c = find(b.children.as_ref().unwrap(), "c");
    assert_eq!(c.entry_type, "FILE");
    assert!(c.children.is_none());
}

#[test]
fn insert_tree_keeps_existing_entries() {
    let mut es: Vec<TreeEntry> = Vec::new();
    FileOpsService::insert_tree(&mut es, &["a"], "FILE");
    FileOpsService::insert_tree(&mut es, &["a"], "DIR");
    assert_eq!(es.len(), 1);
    assert_eq!(es[0].entry_type, "FILE");
    FileOpsService::insert_tree(&mut es, &["a", "x"], "FILE");
    assert_eq!(es[0].entry_type, "FILE");
    assert_eq!(es[0].children.as_ref().unwrap()[0].name, "x");
    FileOpsService::insert_tree(&mut es, &[], "FILE");
    assert_eq!(es.len(), 1);
}

#[test]
fn build_tree_from_find_listing() {
    let listing = "d:/home/u\nd:/home/u/src\nf:/home/u/src/main.rs\nf:/home/u/README.md\nbroken line\n";
    let es = FileOpsService::build_tree("/home/u/", listing);
    assert_eq!(es.len(), 2);
    assert_eq!(es[0].name, "src");
    assert_eq!(es[0].entry_type, "DIR");
    let kids = es[0].children.as_ref().unwrap();
    assert_eq!(kids.len(), 1);
    assert_eq!(kids[0].name, "main.rs");
    assert_eq!(kids[0].entry_type, "FILE");
    assert_eq!(es[1].name, "README.md");
    assert_eq!(es[1].entry_type, "FILE");
}

#[test]
fn edit_content_replaces_and_notes() {
    let (r, write) = FileOpsService::edit_content("hello world world", &[edit("world", "there"), edit("xyz", "q")], false);
    assert!(r.success);
    assert_eq!(r.message, "File updated");
    assert_eq!(
        r.diff.as_deref(),
        Some("--- replace \"world\" \u{2192} \"there\"\n--- pattern not found: \"xyz\"")
    );
    assert_eq!(write.as_deref(), Some("hello there there"));
}

#[test]
fn edit_content_dry_run() {
    let (r, write) = FileOpsService::edit_content("abc", &[edit("b", "B")], true);
    assert!(r.success);
    assert_eq!(r.message, "Dry run");
    assert_eq!(r.diff.as_deref(), Some("No changes"));
    assert!(write.is_none());
    let (r, _) = FileOpsService::edit_content("abc", &[edit("z", "B")], true);
    assert!(!r.success);
    assert_eq!(r.diff.as_deref(), Some("--- pattern not found: \"z\""));
}

#[test]
fn edit_content_truncates_notes() {
    let long = "x".repeat(50);
    let (r, _) = FileOpsService::edit_content("abc", &[edit(&long, "y")], false);
    assert_eq!(r.diff.unwrap(), format!("--- pattern not found: \"{}\"", "x".repeat(40)));
}

#[test]
fn edit_content_empty_file() {
    let (r, write) = FileOpsService::edit_content("", &[edit("a", "b")], false);
    assert!(!r.success);
    assert!(r.diff.is_none());
    assert_eq!(r.message, "File empty or not found");
    assert!(write.is_none());
}

#[test]
fn parse_search_output_lines() {
    let ms = FileOpsService::parse_search_output("src/a.rs:12:fn main() {\nbad line\nx:notnum:y\nb.rs:3:a:b\n");
    assert_eq!(ms.len(), 2);
    assert_eq!(ms[0].file, "src/a.rs");
    assert_eq!(ms[0].line, 12);
    assert_eq!(ms[0].content, "fn main() {");
    assert_eq!(ms[1].content, "a:b");
}

#[test]
fn parse_directory_listing_lines() {
    let out = "total 8\ndrwxr-xr-x 2 u u 4096 Jan 1 10:00 .\ndrwxr-xr-x 3 u u 4096 Jan 1 10:00 ..\n-rw-r--r-- 1 u u 120 Jan 2 11:30 notes.txt\ndrwxr-xr-x 2 u u 4096 Jan 3 09:15 src\n";
    let es = FileOpsService::parse_directory_listing(out);
    assert_eq!(es.len(), 2);
    assert_eq!(es[0].name, "notes.txt");
    assert_eq!(es[0].entry_type, "FILE");
    assert_eq!(es[0].size, Some(120));
    assert_eq!(es[0].modified.as_deref(), Some("Jan 2 11:30"));
    assert_eq!(es[1].name, "src");
    assert_eq!(es[1].entry_type, "DIR");
}

#[test]
fn parse_file_info_fields() {
    let f = FileOpsService::parse_file_info("/etc/hosts", "221:-rw-r--r--:2024-01-01 12:00:00.0 +0000:regular file\n");
    assert_eq!(f.path, "/etc/hosts");
    assert_eq!(f.size, 221);
    assert_eq!(f.permissions, "-rw-r--r--");
    assert_eq!(f.modified, "2024-01-01 12");
    assert_eq!(f.file_type, "00:00.0 +0000:regular file");
    let f = FileOpsService::parse_file_info("/x", "");
    assert_eq!(f.size, 0);
    assert_eq!(f.permissions, "");
}

#[test]
fn search_arguments() {
    assert_eq!(
        FileOpsService::search_files_args("/src", "*.rs", &["target".to_string()]),
        vec!["find", "/src", "-name", "*.rs", "-type", "f", "!", "-path", "*/target/*"]
    );
    assert_eq!(
        FileOpsService::search_in_files_args("/src", "TODO", true, true, &["*.rs".to_string()], &["target".to_string()], 50, 2),
        vec!["grep", "-r", "-n", "-E", "-i", "-C", "2", "--max-count", "50", "--include", "*.rs", "--exclude-dir", "target", "TODO", "/src"]
    );
    assert_eq!(
        FileOpsService::search_in_files_args("/", "x", false, false, &[], &[], 10, 0),
        vec!["grep", "-r", "-n", "--max-count", "10", "x", "/"]
    );
}

#[test]
fn write_file_command_and_message() {
    assert_eq!(
        FileOpsService::write_file_command("/tmp/a.txt", "hi"),
        "mkdir -p \"$(dirname '/tmp/a.txt')\" && cat > '/tmp/a.txt' << 'WSLMCPEOF'\nhi\nWSLMCPEOF"
    );
    assert_eq!(FileOpsService::write_file_message("/tmp/a.txt", "h\u{e9}", true, ""), "Written 3 bytes to /tmp/a.txt");
    assert_eq!(FileOpsService::write_file_message("/tmp/a.txt", "x", false, "denied"), "Write failed: denied");
}

#[test]
fn output_lines_split() {
    assert_eq!(FileOpsService::output_lines("a\r\nb\n\nc"), vec!["a", "b", "", "c"]);
    assert!(FileOpsService::output_lines("").is_empty());
}

#[test]
fn insert_tree_twice_changes_nothing() {
    let mut es: Vec<TreeEntry> = Vec::new();
    FileOpsService::insert_tree(&mut es, &["x", "y"], "FILE");
    let before = format!("{es:?}");
    FileOpsService::insert_tree(&mut es, &["x", "y"], "DIR");
    assert_eq!(format!("{es:?}"), before);
}

#[test]
fn insert_tree_new_leaf_has_no_children() {
    let mut es: Vec<TreeEntry> = Vec::new();
    FileOpsService::insert_tree(&mut es, &["a", "b"], "FILE");
    assert_eq!(es.len(), 1);
    assert_eq!(es[0].name, "a");
    assert_eq!(es[0].entry_type, "DIR");
    let kids = es[0].children.as_ref().unwrap();
    assert_eq!(kids.len(), 1);
    assert_eq!(kids[0].name, "b");
    assert_eq!(kids[0].entry_type, "FILE");
    assert!(kids[0].children.is_none());
}

#[test]
fn insert_tree_children_keep_order_and_distinct_names() {
    let mut es: Vec<TreeEntry> = Vec::new();
    FileOpsService::insert_tree(&mut es, &["d", "b"], "FILE");
    FileOpsService::insert_tree(&mut es, &["d", "a"], "FILE");
    FileOpsService::insert_tree(&mut es, &["d", "b"], "FILE");
    FileOpsService::insert_tree(&mut es, &["e"], "FILE");
    assert_eq!(es.len(), 2);
    assert_eq!(es[1].name, "e");
    assert!(es[1].children.is_none());
    let kids = es[0].children.as_ref().unwrap();
    assert_eq!(kids.len(), 2);
    assert_eq!(kids[0].name, "b");
    assert_eq!(kids[1].name, "a");
}
