use appz_wsl_mcp::read_tools::{
    filter_env, package_manager_candidates, package_manager_found, parse_disk_usage, parse_mounts,
    parse_os_release, parse_processes, parse_shells, SystemInfo,
};

#[test]
fn os_release_fields() {
    let r = parse_os_release("PRETTY_NAME=\"Ubuntu 22.04\"\nNAME=\"Ubuntu\"\nVERSION_ID=\"22.04\"\nID=ubuntu\n");
    assert_eq!(r.name, "Ubuntu");
    assert_eq!(r.version, "22.04");
    assert_eq!(r.id, "ubuntu");
    let r = parse_os_release("");
    assert_eq!(r.name, "");
}

#[test]
fn mounts_rows() {
    let ms = parse_mounts("/dev/sdc / ext4 rw,relatime 0 0\nnone /mnt/wsl tmpfs rw 0 0\nshort\n");
    assert_eq!(ms.len(), 2);
    assert_eq!(ms[0].filesystem, "/dev/sdc");
    assert_eq!(ms[0].mount_point, "/");
    assert_eq!(ms[0].fstype, "ext4");
    assert_eq!(ms[0].options, "rw,relatime");
    assert_eq!(ms[1].mount_point, "/mnt/wsl");
}

#[test]
fn disk_usage_rows() {
    let ds = parse_disk_usage("Filesystem Size Used Avail Use% Mounted on\n/dev/sdc 251G 10G 229G 5% /\n");
    assert_eq!(ds.len(), 1);
    assert_eq!(ds[0].filesystem, "/dev/sdc");
    assert_eq!(ds[0].size, "251G");
    assert_eq!(ds[0].used, "10G");
    assert_eq!(ds[0].avail, "229G");
    assert_eq!(ds[0].use_percent, "5%");
    assert_eq!(ds[0].mount, "/");
}

#[test]
fn shells_rows() {
    let s = parse_shells("# comment\n/bin/bash\n\n  /bin/zsh  \n");
    assert_eq!(s.len(), 2);
    assert_eq!(s[0].path, "/bin/bash");
    assert_eq!(s[1].path, "/bin/zsh");
    assert!(s[1].available);
}

#[test]
fn env_filter() {
    let all = filter_env("HOME=/home/u\nPATH=/usr/bin\nhome_dir=x\nnovalue\n", None);
    assert_eq!(all.len(), 3);
    let some = filter_env("HOME=/home/u\nPATH=/usr/bin\nhome_dir=x=y\n", Some("HoMe"));
    assert_eq!(some, vec![("HOME".to_string(), "/home/u".to_string()), ("home_dir".to_string(), "x=y".to_string())]);
}

#[test]
fn process_rows() {
    let out = "USER PID %CPU %MEM VSZ RSS TTY STAT START TIME COMMAND\nroot 1 0.0 0.1 1000 200 ? Ss 10:00 0:01 /sbin/init splash\nme 42 1.5 2.0 5 6 pts/0 S 10:01 0:00 Docker run\nshort row\n";
    let all = parse_processes(out, None);
    assert_eq!(all.len(), 2);
    assert_eq!(all[0].pid, 1);
    assert_eq!(all[0].user, "root");
    assert_eq!(all[0].cpu, "0.0");
    assert_eq!(all[0].memory, "0.1");
    assert_eq!(all[0].name, "/sbin/init");
    assert_eq!(all[0].command, "/sbin/init splash");
    let docker = parse_processes(out, Some("docker"));
    assert_eq!(docker.len(), 1);
    assert_eq!(docker[0].pid, 42);
    let splash = parse_processes(out, Some("SPLASH"));
    assert_eq!(splash.len(), 1);
    assert_eq!(splash[0].pid, 1);
}

#[test]
fn system_info_trimmed() {
    let s = SystemInfo::from_outputs("Linux x 5.15\n", " host \n", "NAME=x\n");
    assert_eq!(s.kernel, "Linux x 5.15");
    assert_eq!(s.hostname, "host");
    assert_eq!(s.os, "NAME=x");
}

#[test]
fn package_managers() {
    let c = package_manager_candidates();
    assert_eq!(c, vec!["pacman", "apt", "dnf", "apk", "cargo", "npm", "pip", "uv", "brew", "snap"]);
    assert!(package_manager_found("/usr/bin/apt\n"));
    assert!(!package_manager_found("  \n"));
}
