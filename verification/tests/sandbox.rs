//! The confinement of viewers and of the process.

use atom_vault::sandbox::{
    build_bwrap_args, extract_dbus_socket_path, log_sandbox_status, sandbox_rules, session_value,
    Candidate, HostPaths, LandlockStatus, Rights,
};

fn host() -> HostPaths {
    HostPaths {
        fuse: true,
        usr: true,
        etc: true,
        sys: true,
        lib: false,
        lib64: false,
        system_flatpak: true,
        user_flatpak: false,
        runtime_dir: true,
        bus_socket: true,
    }
}

fn bare_host() -> HostPaths {
    HostPaths {
        fuse: false,
        usr: false,
        etc: false,
        sys: false,
        lib: false,
        lib64: false,
        system_flatpak: false,
        user_flatpak: false,
        runtime_dir: false,
        bus_socket: false,
    }
}

fn candidate(path: &str, present: bool) -> Candidate<String> {
    Candidate { path: path.to_string(), present }
}

#[test]
fn sandbox_skips_nonexistent_paths() {
    let ro = vec![candidate("/nonexistent_atom_test_ro", false)];
    let rw = vec![candidate("/nonexistent_atom_test_rw", false)];
    for p in ro.iter().chain(rw.iter()) {
        assert!(!p.present, "sentinel path must not exist on this machine");
        assert!(!std::path::Path::new(&p.path).exists());
    }
    assert!(sandbox_rules(&ro, &rw).is_empty());
}

#[test]
fn a_path_that_is_there_gets_the_rights_of_its_list() {
    let ro = vec![candidate("/usr", true), candidate("/nowhere", false), candidate("/etc", true)];
    let rw = vec![candidate("/home/a.aegis", true)];
    let rules = sandbox_rules(&ro, &rw);
    let got: Vec<(&str, Rights)> = rules.iter().map(|r| (r.path.as_str(), r.rights)).collect();
    assert_eq!(
        got,
        vec![
            ("/usr", Rights::ReadOnly),
            ("/etc", Rights::ReadOnly),
            ("/home/a.aegis", Rights::ReadWrite),
        ],
    );
}

#[test]
fn sandbox_status_variants_are_distinct() {
    assert_ne!(LandlockStatus::FullyEnforced, LandlockStatus::PartiallyEnforced);
    assert_ne!(LandlockStatus::FullyEnforced, LandlockStatus::NotEnforced);
    assert_ne!(LandlockStatus::PartiallyEnforced, LandlockStatus::NotEnforced);
}

#[test]
fn log_sandbox_status_does_not_panic() {
    assert!(log_sandbox_status(LandlockStatus::FullyEnforced).contains("fully enforced"));
    assert!(log_sandbox_status(LandlockStatus::PartiallyEnforced).contains("partially enforced"));
    assert!(log_sandbox_status(LandlockStatus::NotEnforced).contains("not supported"));
}

#[test]
fn test_dbus_parse_standard_path() {
    let addr = "unix:path=/run/user/1000/bus";
    assert_eq!(extract_dbus_socket_path(addr).as_deref(), Some("/run/user/1000/bus"));
}

#[test]
fn test_dbus_parse_path_with_guid() {
    let addr = "unix:path=/run/user/1000/bus;guid=abc123def456";
    assert_eq!(extract_dbus_socket_path(addr).as_deref(), Some("/run/user/1000/bus"));
}

#[test]
fn test_dbus_parse_guid_before_path() {
    let addr = "unix:guid=abc123;path=/run/user/1000/bus";
    assert_eq!(extract_dbus_socket_path(addr).as_deref(), Some("/run/user/1000/bus"));
}

#[test]
fn test_dbus_parse_comma_separated_picks_first_path() {
    let addr = "unix:path=/run/user/1000/bus;guid=abc,unix:path=/tmp/other;guid=xyz";
    assert_eq!(extract_dbus_socket_path(addr).as_deref(), Some("/run/user/1000/bus"));
}

#[test]
fn test_dbus_parse_abstract_socket_returns_none() {
    let addr = "unix:abstract=/tmp/dbus-abc123;guid=abc";
    assert_eq!(extract_dbus_socket_path(addr), None);
}

#[test]
fn test_dbus_parse_empty_returns_none() {
    assert_eq!(extract_dbus_socket_path(""), None);
}

#[test]
fn test_dbus_parse_non_unix_transport_returns_none() {
    assert_eq!(extract_dbus_socket_path("tcp:host=localhost,port=12345"), None);
}

#[test]
fn a_later_address_with_a_path_is_found() {
    let addr = "tcp:host=localhost, unix:guid=1;path=/tmp/bus";
    assert_eq!(extract_dbus_socket_path(addr).as_deref(), Some("/tmp/bus"));
}

fn sample_args() -> Vec<String> {
    build_bwrap_args(
        42,
        "/run/user/1000",
        "wayland-0",
        "/home/user",
        "unix:path=/run/user/1000/bus",
        host(),
    )
}

#[test]
fn test_args_first_element_is_bwrap() {
    assert_eq!(sample_args()[0], "bwrap");
}

#[test]
fn test_args_network_is_unshared() {
    assert!(sample_args().contains(&"--unshare-net".to_string()));
}

#[test]
fn test_args_ipc_is_unshared() {
    assert!(sample_args().contains(&"--unshare-ipc".to_string()));
}

#[test]
fn test_args_uts_is_unshared() {
    assert!(sample_args().contains(&"--unshare-uts".to_string()));
}

#[test]
fn test_args_user_namespace_not_unshared() {
    assert!(!sample_args().contains(&"--unshare-user".to_string()));
}

#[test]
fn test_args_die_with_parent_present() {
    assert!(sample_args().contains(&"--die-with-parent".to_string()));
}

#[test]
fn test_args_new_session_present() {
    assert!(sample_args().contains(&"--new-session".to_string()));
}

#[test]
fn test_args_clearenv_present() {
    assert!(sample_args().contains(&"--clearenv".to_string()));
}

#[test]
fn test_args_tmpfs_on_tmp() {
    let args = sample_args();
    let pos = args.iter().position(|a| a == "--tmpfs").expect("--tmpfs missing");
    assert_eq!(args[pos + 1], "/tmp");
}

#[test]
fn test_args_file_fd_correct() {
    let fd: i32 = 42;
    let args = build_bwrap_args(fd, "/run/user/1000", "wayland-0", "/home/user", "", host());
    let pos = args.iter().position(|a| a == "--file").expect("--file missing");
    assert_eq!(args[pos + 1], fd.to_string());
    assert_eq!(args[pos + 2], "/tmp/document.pdf");
}

#[test]
fn test_args_pdf_destination_is_tmp() {
    assert!(sample_args().contains(&"/tmp/document.pdf".to_string()));
}

#[test]
fn test_args_ends_with_flatpak_papers() {
    let args = sample_args();
    assert!(args.contains(&"flatpak".to_string()));
    assert!(args.contains(&"org.gnome.Papers".to_string()));
    assert_eq!(args.last().unwrap(), "/tmp/document.pdf");
}

#[test]
fn test_args_no_network_flag_for_flatpak() {
    assert!(sample_args().contains(&"--no-network".to_string()));
}

#[test]
fn test_args_filesystem_tmp_ro_flag() {
    assert!(sample_args().contains(&"--filesystem=/tmp:ro".to_string()));
}

#[test]
fn test_args_wayland_display_set() {
    let args = sample_args();
    let pos = args.iter().position(|a| a == "WAYLAND_DISPLAY").expect("WAYLAND_DISPLAY missing");
    assert_eq!(args[pos - 1], "--setenv");
    assert_eq!(args[pos + 1], "wayland-0");
}

#[test]
fn test_args_xdg_runtime_dir_set() {
    let args = sample_args();
    let pos = args.iter().position(|a| a == "XDG_RUNTIME_DIR").expect("XDG_RUNTIME_DIR missing");
    assert_eq!(args[pos - 1], "--setenv");
    assert_eq!(args[pos + 1], "/run/user/1000");
}

#[test]
fn test_args_home_set() {
    let args = sample_args();
    let pos = args.iter().position(|a| a == "HOME").expect("HOME missing");
    assert_eq!(args[pos - 1], "--setenv");
    assert_eq!(args[pos + 1], "/home/user");
}

#[test]
fn test_args_dbus_address_included_when_set() {
    let addr = "unix:path=/run/user/1000/bus";
    let args = build_bwrap_args(42, "/run/user/1000", "wayland-0", "/home/user", addr, host());
    let pos = args
        .iter()
        .position(|a| a == "DBUS_SESSION_BUS_ADDRESS")
        .expect("DBUS_SESSION_BUS_ADDRESS missing");
    assert_eq!(args[pos + 1], addr);
}

#[test]
fn test_args_dbus_omitted_when_empty() {
    let args = build_bwrap_args(42, "/run/user/1000", "wayland-0", "/home/user", "", host());
    assert!(!args.contains(&"DBUS_SESSION_BUS_ADDRESS".to_string()));
}

#[test]
fn a_bare_host_shows_nothing_to_the_container() {
    let args = build_bwrap_args(-1, "/r", "w", "/h", "unix:path=/b", bare_host());
    assert_eq!(
        args,
        vec![
            "bwrap", "--unshare-ipc", "--unshare-net", "--unshare-uts", "--die-with-parent",
            "--new-session", "--clearenv", "--setenv", "WAYLAND_DISPLAY", "w", "--setenv",
            "XDG_RUNTIME_DIR", "/r", "--setenv", "HOME", "/h", "--setenv",
            "DBUS_SESSION_BUS_ADDRESS", "unix:path=/b", "--proc", "/proc", "--dev", "/dev",
            "--tmpfs", "/tmp", "--file", "-1", "/tmp/document.pdf", "--", "flatpak", "run",
            "--no-network", "--filesystem=/tmp:ro", "org.gnome.Papers", "/tmp/document.pdf",
        ],
    );
}

#[test]
fn the_places_of_the_host_are_bound_at_themselves() {
    let mut all = host();
    all.user_flatpak = true;
    all.lib = true;
    let args = build_bwrap_args(3, "/r", "w", "/h", "unix:path=/b", all).join(" ");
    assert!(args.contains("--dev-bind /dev/fuse /dev/fuse"));
    assert!(args.contains("--ro-bind /usr /usr --ro-bind /etc /etc --ro-bind /sys /sys"));
    assert!(args.contains("--ro-bind /lib /lib"));
    assert!(!args.contains("/lib64"));
    assert!(args.contains("--ro-bind /h/.local/share/flatpak /h/.local/share/flatpak"));
    assert!(args.contains("--bind /r /r --bind /b /b"));
}

#[test]
fn the_session_gives_way_to_a_default() {
    assert_eq!(session_value(&None, "wayland-0"), "wayland-0");
    assert_eq!(session_value(&Some("wayland-1".to_string()), "wayland-0"), "wayland-1");
}
