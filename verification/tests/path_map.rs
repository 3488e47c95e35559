use appz_wsl_mcp::config::PathMapping;
use appz_wsl_mcp::path_map::{apply, windows_to_wsl, wsl_to_windows};

fn mapping(from: &str, to: &str) -> PathMapping {
    PathMapping { from_prefix: from.to_string(), to_prefix: to.to_string() }
}

#[test]
fn test_windows_to_wsl() {
    assert_eq!(windows_to_wsl(r"C:\Users\test"), "/mnt/c/Users/test");
    assert_eq!(windows_to_wsl(r"D:\projects"), "/mnt/d/projects");
}

#[test]
fn test_wsl_to_windows() {
    assert_eq!(wsl_to_windows("/mnt/c/Users/test"), r"C:\Users\test");
    assert_eq!(wsl_to_windows("/mnt/d/projects"), r"D:\projects");
}

#[test]
fn windows_to_wsl_leaves_other_text() {
    assert_eq!(windows_to_wsl("/home/me"), "/home/me");
    assert_eq!(windows_to_wsl("C:"), "C:");
    assert_eq!(windows_to_wsl(""), "");
    assert_eq!(windows_to_wsl("relative\\dir"), "relative\\dir");
}

#[test]
fn windows_to_wsl_drive_root() {
    assert_eq!(windows_to_wsl("E:\\"), "/mnt/e/");
}

#[test]
fn wsl_to_windows_leaves_other_text() {
    assert_eq!(wsl_to_windows("/home/me"), "/home/me");
    assert_eq!(wsl_to_windows("/mnt/"), "/mnt/");
    assert_eq!(wsl_to_windows("/mnt/c"), "C:");
}

#[test]
fn windows_wsl_round_trip() {
    let p = r"C:\Users\me\project";
    assert_eq!(wsl_to_windows(&windows_to_wsl(p)), p);
    let q = "/mnt/d/work/src";
    assert_eq!(windows_to_wsl(&wsl_to_windows(q)), q);
}

#[test]
fn apply_uses_first_fitting_mapping() {
    let ms = vec![mapping("C:\\Users\\", "/mnt/c/Users/"), mapping("D:\\", "/mnt/d/")];
    assert_eq!(apply("C:\\Users\\me", &ms), "/mnt/c/Users/me");
    assert_eq!(apply("/mnt/d/data", &ms), "D:\\data");
    assert_eq!(apply("E:\\x", &ms), "E:\\x");
    assert_eq!(apply("anything", &[]), "anything");
}

#[test]
fn apply_twice_gives_path_back() {
    let ms = vec![mapping("C:\\Users\\", "/mnt/c/Users/")];
    let p = "C:\\Users\\me\\notes.txt";
    assert_eq!(apply(&apply(p, &ms), &ms), p);
}
