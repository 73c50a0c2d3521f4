//! The confinement of viewers and of the process itself.

use crate::paths::optional_text;
use crate::text::{
    chars_of, concat, copy_text, decimal, decimal_spec, is_white_space,
    law_trim_takes_white_space_from_the_ends, push_text, starts_with, string_of, trim, trim_spec,
    views,
};
use vstd::prelude::*;
use vstd::slice::slice_subrange;

verus! {

// ── The confinement of the process ───────────────────────────────────────────

/// How far the kernel enforces the confinement that was asked for.
#[derive(Debug, Clone, Copy, PartialEq, Eq, Structural)]
pub enum LandlockStatus {
    /// Every right that was asked for is known to the kernel and enforced.
    FullyEnforced,
    /// The kernel predates some of the rights; the others are enforced.
    PartiallyEnforced,
    /// The kernel knows no such confinement; the process is not restricted.
    NotEnforced,
}

/// What is logged of the confinement.
pub open spec fn status_line(status: LandlockStatus) -> Seq<char> {
    match status {
        LandlockStatus::FullyEnforced => {
            "[Sandbox] Landlock inner sandbox: fully enforced (ABI V5)."@
        },
        LandlockStatus::PartiallyEnforced => {
            "[Sandbox] Landlock inner sandbox: partially enforced (kernel ABI < V5 — some access flags unavailable)."@
        },
        LandlockStatus::NotEnforced => {
            "[Sandbox] Warning: Landlock LSM not supported on this kernel. Process filesystem access is unrestricted."@
        },
    }
}

/// What is logged of the confinement.
pub fn log_sandbox_status(status: LandlockStatus) -> (r: &'static str)
    ensures
        r@ == status_line(status),
{
    match status {
        LandlockStatus::FullyEnforced => {
            "[Sandbox] Landlock inner sandbox: fully enforced (ABI V5)."
        },
        LandlockStatus::PartiallyEnforced => {
            "[Sandbox] Landlock inner sandbox: partially enforced (kernel ABI < V5 — some access flags unavailable)."
        },
        LandlockStatus::NotEnforced => {
            "[Sandbox] Warning: Landlock LSM not supported on this kernel. Process filesystem access is unrestricted."
        },
    }
}

/// What a rule lets the process do below a path.
#[derive(Debug, Clone, Copy, PartialEq, Eq, Structural)]
pub enum Rights {
    /// Read files, list directories, execute.
    ReadOnly,
    /// Everything.
    ReadWrite,
}

/// A path that a rule may be made for, and whether it is there.
pub struct Candidate<T> {
    pub path: T,
    pub present: bool,
}

/// A rule: a path and the rights below it.
pub struct Rule<T> {
    pub path: T,
    pub rights: Rights,
}

impl View for Candidate<String> {
    type V = Candidate<Seq<char>>;

    open spec fn view(&self) -> Self::V {
        Candidate { path: self.path@, present: self.present }
    }
}

impl View for Rule<String> {
    type V = Rule<Seq<char>>;

    open spec fn view(&self) -> Self::V {
        Rule { path: self.path@, rights: self.rights }
    }
}

/// The rules for the paths that are there; the others are skipped.
pub open spec fn rules_for(c: Seq<Candidate<Seq<char>>>, rights: Rights) -> Seq<Rule<Seq<char>>>
    decreases c.len(),
{
    if c.len() == 0 {
        Seq::empty()
    } else {
        let before = rules_for(c.subrange(0, c.len() - 1), rights);
        let last = c[c.len() - 1];
        if last.present {
            before.push(Rule { path: last.path, rights })
        } else {
            before
        }
    }
}

/// The views of candidates.
pub open spec fn candidate_views(c: Seq<Candidate<String>>) -> Seq<Candidate<Seq<char>>> {
    c.map_values(|x: Candidate<String>| x@)
}

/// The views of rules.
pub open spec fn rule_views(c: Seq<Rule<String>>) -> Seq<Rule<Seq<char>>> {
    c.map_values(|x: Rule<String>| x@)
}

fn push_rules(out: &mut Vec<Rule<String>>, paths: &Vec<Candidate<String>>, rights: Rights)
    ensures
        rule_views(final(out)@) == rule_views(old(out)@) + rules_for(
            candidate_views(paths@),
            rights,
        ),
{
    let ghost start = rule_views(out@);
    let ghost c = candidate_views(paths@);
    let mut i: usize = 0;
    assert(c.subrange(0, 0) =~= Seq::empty());
    assert(rule_views(out@) =~= start + rules_for(c.subrange(0, 0), rights));
    while i < paths.len()
        invariant
            c == candidate_views(paths@),
            c.len() == paths@.len(),
            i <= paths@.len(),
            rule_views(out@) == start + rules_for(c.subrange(0, i as int), rights),
        decreases paths@.len() - i,
    {
        let ghost upto = c.subrange(0, i + 1);
        let ghost before = rule_views(out@);
        assert(upto.subrange(0, upto.len() - 1) =~= c.subrange(0, i as int));
        assert(upto[i as int] == paths@[i as int]@);
        if paths[i].present {
            let rule: Rule<String> = Rule { path: copy_text(&paths[i].path), rights };
            out.push(rule);
            assert(rule_views(out@) =~= before.push(rule@));
            assert(rule_views(out@) =~= start + rules_for(upto, rights));
        }
        i = i + 1;
    }
    assert(c.subrange(0, c.len() as int) =~= c);
}

/// The rules that the process is confined to: the paths to read, then the paths to write. A path
/// that is not there gets none.
pub fn sandbox_rules(
    read_only_paths: &Vec<Candidate<String>>,
    read_write_paths: &Vec<Candidate<String>>,
) -> (r: Vec<Rule<String>>)
    ensures
        rule_views(r@) == rules_for(candidate_views(read_only_paths@), Rights::ReadOnly)
            + rules_for(candidate_views(read_write_paths@), Rights::ReadWrite),
{
    let mut out: Vec<Rule<String>> = Vec::new();
    assert(rule_views(out@) =~= Seq::empty());
    push_rules(&mut out, read_only_paths, Rights::ReadOnly);
    push_rules(&mut out, read_write_paths, Rights::ReadWrite);
    assert(rule_views(out@) =~= rules_for(candidate_views(read_only_paths@), Rights::ReadOnly)
        + rules_for(candidate_views(read_write_paths@), Rights::ReadWrite));
    out
}

/// A rule is made for nothing but a candidate that is there, with the rights of its list.
pub proof fn law_rules_are_asked_for(c: Seq<Candidate<Seq<char>>>, rights: Rights, k: int)
    requires
        0 <= k < rules_for(c, rights).len(),
    ensures
        rules_for(c, rights)[k].rights == rights,
        exists|i: int|
            0 <= i < c.len() && (#[trigger] c[i]).present && c[i].path == rules_for(
                c,
                rights,
            )[k].path,
    decreases c.len(),
{
    let n = c.len() as int;
    let init = c.subrange(0, n - 1);
    let before = rules_for(init, rights);
    if k < before.len() {
        law_rules_are_asked_for(init, rights, k);
        let i = choose|i: int|
            0 <= i < init.len() && (#[trigger] init[i]).present && init[i].path == before[k].path;
        assert(c[i] == init[i]);
        assert(rules_for(c, rights)[k] == before[k]);
    } else {
        assert(c[n - 1].present);
    }
}

// ── The address of the session bus ───────────────────────────────────────────

/// The text behind a prefix.
pub open spec fn behind(s: Seq<char>, prefix: Seq<char>) -> Option<Seq<char>> {
    if prefix.is_prefix_of(s) {
        Some(s.subrange(prefix.len() as int, s.len() as int))
    } else {
        None
    }
}

/// The parts of a text between its separators, of the first of which `cur` is read. A text without
/// a separator is one part.
pub open spec fn parts_from(s: Seq<char>, sep: char, i: int, cur: Seq<char>) -> Seq<Seq<char>>
    decreases s.len() - i,
{
    if i < 0 || i >= s.len() {
        seq![cur]
    } else if s[i] == sep {
        seq![cur] + parts_from(s, sep, i + 1, Seq::empty())
    } else {
        parts_from(s, sep, i + 1, cur.push(s[i]))
    }
}

/// The parts of a text between its separators.
pub open spec fn parts_of(s: Seq<char>, sep: char) -> Seq<Seq<char>> {
    parts_from(s, sep, 0, Seq::empty())
}

/// The value of the first key `path` among the keys of one address.
pub open spec fn path_value(keys: Seq<Seq<char>>) -> Option<Seq<char>>
    decreases keys.len(),
{
    if keys.len() == 0 {
        None
    } else if behind(keys[0], "path="@) is Some {
        behind(keys[0], "path="@)
    } else {
        path_value(keys.subrange(1, keys.len() as int))
    }
}

/// The path that one address gives: that of a Unix socket with a key `path`.
pub open spec fn entry_path(entry: Seq<char>) -> Option<Seq<char>> {
    match behind(trim_spec(entry), "unix:"@) {
        Some(rest) => path_value(parts_of(rest, ';')),
        None => None,
    }
}

/// The path of the first address that gives one.
pub open spec fn first_path(entries: Seq<Seq<char>>) -> Option<Seq<char>>
    decreases entries.len(),
{
    if entries.len() == 0 {
        None
    } else if entry_path(entries[0]) is Some {
        entry_path(entries[0])
    } else {
        first_path(entries.subrange(1, entries.len() as int))
    }
}

/// The path of the session bus socket: addresses are separated by commas, their keys by
/// semicolons.
pub open spec fn dbus_path(addr: Seq<char>) -> Option<Seq<char>> {
    first_path(parts_of(addr, ','))
}

fn split_at_char(s: &str, sep: char) -> (r: Vec<String>)
    ensures
        views(r@) == parts_of(s@, sep),
{
    let x: Vec<char> = chars_of(s);
    let mut out: Vec<String> = Vec::new();
    let mut cur: String = String::new();
    let mut i: usize = 0;
    assert(cur@ =~= Seq::empty());
    assert(views(out@) + parts_of(s@, sep) =~= parts_of(s@, sep));
    while i < x.len()
        invariant
            x@ == s@,
            i <= x@.len(),
            views(out@) + parts_from(s@, sep, i as int, cur@) == parts_of(s@, sep),
        decreases x@.len() - i,
    {
        let c: char = x[i];
        if c == sep {
            let ghost before = views(out@);
            let ghost part = cur@;
            let ghost rest = parts_from(s@, sep, i + 1, Seq::empty());
            let mut done: String = String::new();
            std::mem::swap(&mut done, &mut cur);
            out.push(done);
            assert(views(out@) =~= before + seq![part]);
            assert(before + (seq![part] + rest) =~= (before + seq![part]) + rest);
            assert(cur@ =~= Seq::empty());
        } else {
            cur.push(c);
        }
        i = i + 1;
    }
    let ghost before = views(out@);
    let ghost part = cur@;
    out.push(cur);
    assert(views(out@) =~= before + seq![part]);
    out
}

fn strip(s: &str, prefix: &str) -> (r: Option<String>)
    ensures
        optional_text(r) == behind(s@, prefix@),
{
    if starts_with(s, prefix) {
        let x: Vec<char> = chars_of(s);
        let n: usize = chars_of(prefix).len();
        Some(string_of(slice_subrange(&x, n, x.len())))
    } else {
        None
    }
}

fn path_key(rest: &str) -> (r: Option<String>)
    ensures
        optional_text(r) == path_value(parts_of(rest@, ';')),
{
    let keys: Vec<String> = split_at_char(rest, ';');
    let ghost k = parts_of(rest@, ';');
    let mut i: usize = 0;
    assert(k.subrange(0, k.len() as int) =~= k);
    while i < keys.len()
        invariant
            k == parts_of(rest@, ';'),
            views(keys@) == k,
            k.len() == keys@.len(),
            i <= keys@.len(),
            path_value(k.subrange(i as int, k.len() as int)) == path_value(k),
        decreases keys@.len() - i,
    {
        let ghost left = k.subrange(i as int, k.len() as int);
        assert(left[0] == keys@[i as int]@);
        assert(left.subrange(1, left.len() as int) =~= k.subrange(i + 1, k.len() as int));
        let value: Option<String> = strip(&keys[i], "path=");
        if value.is_some() {
            return value;
        }
        i = i + 1;
    }
    None
}

/// The path of the session bus socket, where the address gives one.
pub fn extract_dbus_socket_path(addr: &str) -> (r: Option<String>)
    ensures
        optional_text(r) == dbus_path(addr@),
{
    let entries: Vec<String> = split_at_char(addr, ',');
    let ghost e = parts_of(addr@, ',');
    let mut i: usize = 0;
    assert(e.subrange(0, e.len() as int) =~= e);
    while i < entries.len()
        invariant
            e == parts_of(addr@, ','),
            views(entries@) == e,
            e.len() == entries@.len(),
            i <= entries@.len(),
            first_path(e.subrange(i as int, e.len() as int)) == first_path(e),
        decreases entries@.len() - i,
    {
        let ghost left = e.subrange(i as int, e.len() as int);
        assert(left[0] == entries@[i as int]@);
        assert(left.subrange(1, left.len() as int) =~= e.subrange(i + 1, e.len() as int));
        if let Some(rest) = strip(&trim(&entries[i]), "unix:") {
            let value: Option<String> = path_key(&rest);
            if value.is_some() {
                return value;
            }
        }
        i = i + 1;
    }
    None
}

// ── The container of a viewer ────────────────────────────────────────────────

/// What the file system of the host holds of the places that are shown to the container. `lib` and
/// `lib64` count where they are directories and no links.
#[derive(Debug, Clone, Copy, PartialEq, Eq, Structural)]
pub struct HostPaths {
    pub fuse: bool,
    pub usr: bool,
    pub etc: bool,
    pub sys: bool,
    pub lib: bool,
    pub lib64: bool,
    pub system_flatpak: bool,
    pub user_flatpak: bool,
    pub runtime_dir: bool,
    pub bus_socket: bool,
}

/// Words where a condition holds, nothing where it does not.
pub open spec fn when(present: bool, words: Seq<Seq<char>>) -> Seq<Seq<char>> {
    if present {
        words
    } else {
        Seq::empty()
    }
}

/// A place shown at itself.
pub open spec fn shown(option: Seq<char>, path: Seq<char>) -> Seq<Seq<char>> {
    seq![option, path, path]
}

/// A variable of the container's environment.
pub open spec fn variable(name: Seq<char>, value: Seq<char>) -> Seq<Seq<char>> {
    seq!["--setenv"@, name, value]
}

/// A number in decimal notation, with a minus sign where it is negative.
pub open spec fn signed_decimal(n: int) -> Seq<char> {
    if n < 0 {
        "-"@ + decimal_spec((-n) as nat)
    } else {
        decimal_spec(n as nat)
    }
}

/// The namespaces and the life of the container.
pub open spec fn isolation() -> Seq<Seq<char>> {
    seq![
        "bwrap"@,
        "--unshare-ipc"@,
        "--unshare-net"@,
        "--unshare-uts"@,
        "--die-with-parent"@,
        "--new-session"@,
        "--clearenv"@,
    ]
}

/// The environment of the container.
pub open spec fn environment(
    xdg_runtime: Seq<char>,
    wayland_display: Seq<char>,
    home: Seq<char>,
    dbus_addr: Seq<char>,
) -> Seq<Seq<char>> {
    variable("WAYLAND_DISPLAY"@, wayland_display) + variable("XDG_RUNTIME_DIR"@, xdg_runtime)
        + variable("HOME"@, home) + when(
        dbus_addr.len() > 0,
        variable("DBUS_SESSION_BUS_ADDRESS"@, dbus_addr),
    )
}

/// The document: the container reads it from a descriptor into a file system in RAM.
pub open spec fn document(fd: int, fuse: bool) -> Seq<Seq<char>> {
    seq!["--proc"@, "/proc"@, "--dev"@, "/dev"@] + when(
        fuse,
        shown("--dev-bind"@, "/dev/fuse"@),
    ) + seq!["--tmpfs"@, "/tmp"@, "--file"@, signed_decimal(fd), "/tmp/document.pdf"@]
}

/// The places of the system that the container sees, to be read only.
pub open spec fn system_places(host: HostPaths) -> Seq<Seq<char>> {
    when(host.usr, shown("--ro-bind"@, "/usr"@)) + when(host.etc, shown("--ro-bind"@, "/etc"@))
        + when(host.sys, shown("--ro-bind"@, "/sys"@)) + when(
        host.lib,
        shown("--ro-bind"@, "/lib"@),
    ) + when(host.lib64, shown("--ro-bind"@, "/lib64"@))
}

/// The installations of viewers that the container sees, to be read only.
pub open spec fn flatpak_places(host: HostPaths, home: Seq<char>) -> Seq<Seq<char>> {
    when(host.system_flatpak, shown("--ro-bind"@, "/var/lib/flatpak"@)) + when(
        host.user_flatpak,
        shown("--ro-bind"@, home + "/.local/share/flatpak"@),
    )
}

/// The places of the session that the container sees: its runtime directory and its bus.
pub open spec fn session_places(
    host: HostPaths,
    xdg_runtime: Seq<char>,
    dbus_addr: Seq<char>,
) -> Seq<Seq<char>> {
    when(host.runtime_dir, shown("--bind"@, xdg_runtime)) + match dbus_path(dbus_addr) {
        Some(socket) => when(host.bus_socket, shown("--bind"@, socket)),
        None => Seq::empty(),
    }
}

/// The places of the host that the container sees.
pub open spec fn host_places(
    host: HostPaths,
    xdg_runtime: Seq<char>,
    home: Seq<char>,
    dbus_addr: Seq<char>,
) -> Seq<Seq<char>> {
    system_places(host) + flatpak_places(host, home) + session_places(host, xdg_runtime, dbus_addr)
}

/// The viewer and its own confinement.
pub open spec fn viewer() -> Seq<Seq<char>> {
    seq![
        "--"@,
        "flatpak"@,
        "run"@,
        "--no-network"@,
        "--filesystem=/tmp:ro"@,
        "org.gnome.Papers"@,
        "/tmp/document.pdf"@,
    ]
}

/// The command line of the container.
pub open spec fn bwrap_args(
    fd: int,
    xdg_runtime: Seq<char>,
    wayland_display: Seq<char>,
    home: Seq<char>,
    dbus_addr: Seq<char>,
    host: HostPaths,
) -> Seq<Seq<char>> {
    isolation() + environment(xdg_runtime, wayland_display, home, dbus_addr) + document(
        fd,
        host.fuse,
    ) + host_places(host, xdg_runtime, home, dbus_addr) + viewer()
}

fn push_word(out: &mut Vec<String>, word: &str)
    ensures
        views(final(out)@) == views(old(out)@).push(word@),
{
    out.push(copy_text(word));
    assert(views(out@) =~= views(old(out)@).push(word@));
}

fn push_shown(out: &mut Vec<String>, present: bool, option: &str, path: &str)
    ensures
        views(final(out)@) == views(old(out)@) + when(present, shown(option@, path@)),
{
    if present {
        push_word(out, option);
        push_word(out, path);
        push_word(out, path);
    }
    assert(views(out@) =~= views(old(out)@) + when(present, shown(option@, path@)));
}

fn push_variable(out: &mut Vec<String>, name: &str, value: &str)
    ensures
        views(final(out)@) == views(old(out)@) + variable(name@, value@),
{
    push_word(out, "--setenv");
    push_word(out, name);
    push_word(out, value);
    assert(views(out@) =~= views(old(out)@) + variable(name@, value@));
}

fn fd_text(fd: i32) -> (r: String)
    ensures
        r@ == signed_decimal(fd as int),
{
    if fd < 0 {
        let mut out: String = copy_text("-");
        push_text(&mut out, &decimal((-(fd as i64)) as u64));
        out
    } else {
        decimal(fd as u64)
    }
}

fn push_isolation(out: &mut Vec<String>)
    ensures
        views(final(out)@) == views(old(out)@) + isolation(),
{
    push_word(out, "bwrap");
    push_word(out, "--unshare-ipc");
    push_word(out, "--unshare-net");
    push_word(out, "--unshare-uts");
    push_word(out, "--die-with-parent");
    push_word(out, "--new-session");
    push_word(out, "--clearenv");
    assert(views(out@) =~= views(old(out)@) + isolation());
}

fn push_environment(
    out: &mut Vec<String>,
    xdg_runtime: &str,
    wayland_display: &str,
    home: &str,
    dbus_addr: &str,
)
    ensures
        views(final(out)@) == views(old(out)@) + environment(
            xdg_runtime@,
            wayland_display@,
            home@,
            dbus_addr@,
        ),
{
    push_variable(out, "WAYLAND_DISPLAY", wayland_display);
    push_variable(out, "XDG_RUNTIME_DIR", xdg_runtime);
    push_variable(out, "HOME", home);
    if !dbus_addr.is_empty() {
        push_variable(out, "DBUS_SESSION_BUS_ADDRESS", dbus_addr);
    }
    assert(views(out@) =~= views(old(out)@) + environment(
        xdg_runtime@,
        wayland_display@,
        home@,
        dbus_addr@,
    ));
}

fn push_document(out: &mut Vec<String>, fd: i32, fuse: bool)
    ensures
        views(final(out)@) == views(old(out)@) + document(fd as int, fuse),
{
    push_word(out, "--proc");
    push_word(out, "/proc");
    push_word(out, "--dev");
    push_word(out, "/dev");
    push_shown(out, fuse, "--dev-bind", "/dev/fuse");
    push_word(out, "--tmpfs");
    push_word(out, "/tmp");
    push_word(out, "--file");
    push_word(out, &fd_text(fd));
    push_word(out, "/tmp/document.pdf");
    assert(views(out@) =~= views(old(out)@) + document(fd as int, fuse));
}

fn push_system_places(out: &mut Vec<String>, host: HostPaths)
    ensures
        views(final(out)@) == views(old(out)@) + system_places(host),
{
    let ghost usr = when(host.usr, shown("--ro-bind"@, "/usr"@));
    let ghost etc = usr + when(host.etc, shown("--ro-bind"@, "/etc"@));
    let ghost sys = etc + when(host.sys, shown("--ro-bind"@, "/sys"@));
    let ghost lib = sys + when(host.lib, shown("--ro-bind"@, "/lib"@));
    push_shown(out, host.usr, "--ro-bind", "/usr");
    push_shown(out, host.etc, "--ro-bind", "/etc");
    assert(views(out@) =~= views(old(out)@) + etc);
    push_shown(out, host.sys, "--ro-bind", "/sys");
    assert(views(out@) =~= views(old(out)@) + sys);
    push_shown(out, host.lib, "--ro-bind", "/lib");
    assert(views(out@) =~= views(old(out)@) + lib);
    push_shown(out, host.lib64, "--ro-bind", "/lib64");
    assert(views(out@) =~= views(old(out)@) + system_places(host));
}

fn push_flatpak_places(out: &mut Vec<String>, host: HostPaths, home: &str)
    ensures
        views(final(out)@) == views(old(out)@) + flatpak_places(host, home@),
{
    push_shown(out, host.system_flatpak, "--ro-bind", "/var/lib/flatpak");
    push_shown(out, host.user_flatpak, "--ro-bind", &concat(home, "/.local/share/flatpak"));
    assert(views(out@) =~= views(old(out)@) + flatpak_places(host, home@));
}

fn push_session_places(out: &mut Vec<String>, host: HostPaths, xdg_runtime: &str, dbus_addr: &str)
    ensures
        views(final(out)@) == views(old(out)@) + session_places(host, xdg_runtime@, dbus_addr@),
{
    push_shown(out, host.runtime_dir, "--bind", xdg_runtime);
    if let Some(socket) = extract_dbus_socket_path(dbus_addr) {
        push_shown(out, host.bus_socket, "--bind", &socket);
    }
    assert(views(out@) =~= views(old(out)@) + session_places(host, xdg_runtime@, dbus_addr@));
}

fn push_viewer(out: &mut Vec<String>)
    ensures
        views(final(out)@) == views(old(out)@) + viewer(),
{
    push_word(out, "--");
    push_word(out, "flatpak");
    push_word(out, "run");
    push_word(out, "--no-network");
    push_word(out, "--filesystem=/tmp:ro");
    push_word(out, "org.gnome.Papers");
    push_word(out, "/tmp/document.pdf");
    assert(views(out@) =~= views(old(out)@) + viewer());
}

proof fn lemma_regroup(
    a: Seq<Seq<char>>,
    s: Seq<Seq<char>>,
    f: Seq<Seq<char>>,
    n: Seq<Seq<char>>,
    v: Seq<Seq<char>>,
)
    ensures
        a + s + f + n + v == a + (s + f + n) + v,
{
    assert(a + s + f + n =~= a + (s + f + n));
}

/// The command line of the container that shows a document out of RAM: no network, a clean
/// environment, and of the host only what the viewer needs.
pub fn build_bwrap_args(
    inherited_fd: i32,
    xdg_runtime: &str,
    wayland_display: &str,
    home: &str,
    dbus_addr: &str,
    host: HostPaths,
) -> (r: Vec<String>)
    ensures
        views(r@) == bwrap_args(
            inherited_fd as int,
            xdg_runtime@,
            wayland_display@,
            home@,
            dbus_addr@,
            host,
        ),
{
    let mut out: Vec<String> = Vec::new();
    push_isolation(&mut out);
    assert(views(out@) =~= isolation());
    push_environment(&mut out, xdg_runtime, wayland_display, home, dbus_addr);
    push_document(&mut out, inherited_fd, host.fuse);
    push_system_places(&mut out, host);
    push_flatpak_places(&mut out, host, home);
    push_session_places(&mut out, host, xdg_runtime, dbus_addr);
    push_viewer(&mut out);
    proof {
        lemma_regroup(
            isolation() + environment(xdg_runtime@, wayland_display@, home@, dbus_addr@) + document(
                inherited_fd as int,
                host.fuse,
            ),
            system_places(host),
            flatpak_places(host, home@),
            session_places(host, xdg_runtime@, dbus_addr@),
            viewer(),
        );
    }
    out
}

/// Whatever the host is like, the container has no network, its own host name and its own means of
/// communication between processes, a clean environment and a life that ends with its parent's, and
/// the last word of its command is the document in RAM.
pub proof fn law_container_is_isolated(
    fd: int,
    xdg_runtime: Seq<char>,
    wayland_display: Seq<char>,
    home: Seq<char>,
    dbus_addr: Seq<char>,
    host: HostPaths,
)
    ensures
        isolation().is_prefix_of(
            bwrap_args(fd, xdg_runtime, wayland_display, home, dbus_addr, host),
        ),
        viewer().is_suffix_of(
            bwrap_args(fd, xdg_runtime, wayland_display, home, dbus_addr, host),
        ),
{
    let rest = environment(xdg_runtime, wayland_display, home, dbus_addr) + document(fd, host.fuse)
        + host_places(host, xdg_runtime, home, dbus_addr);
    let all = bwrap_args(fd, xdg_runtime, wayland_display, home, dbus_addr, host);
    assert(all =~= isolation() + rest + viewer());
    assert(all.subrange(0, isolation().len() as int) =~= isolation());
    assert(all.subrange(all.len() - viewer().len(), all.len() as int) =~= viewer());
}

/// The environment that a container gets where the session does not say.
pub fn session_value(value: &Option<String>, otherwise: &str) -> (r: String)
    ensures
        r@ == match optional_text(*value) {
            Some(v) => v,
            None => otherwise@,
        },
{
    match value {
        Some(v) => copy_text(v),
        None => copy_text(otherwise),
    }
}

// ── Laws ─────────────────────────────────────────────────────────────────────

/// Every candidate that is there gets its rule, in order, and a candidate that is not there gets
/// none.
pub proof fn law_present_candidates_get_rules(c: Seq<Candidate<Seq<char>>>, rights: Rights)
    ensures
        rules_for(c, rights) == c.filter(|x: Candidate<Seq<char>>| x.present).map_values(
            |x: Candidate<Seq<char>>| Rule { path: x.path, rights },
        ),
    decreases c.len(),
{
    reveal(Seq::filter);
    let there = |x: Candidate<Seq<char>>| x.present;
    let rule = |x: Candidate<Seq<char>>| Rule { path: x.path, rights };
    if c.len() == 0 {
        assert(c.filter(there).map_values(rule) =~= Seq::empty());
    } else {
        let init = c.subrange(0, c.len() - 1);
        let last = c[c.len() - 1];
        law_present_candidates_get_rules(init, rights);
        assert(c.drop_last() =~= init);
        if last.present {
            assert(c.filter(there) == init.filter(there).push(last));
            assert(init.filter(there).push(last).map_values(rule) =~= init.filter(there).map_values(
                rule,
            ).push(rule(last)));
        }
    }
}

/// The parts from a place on are those of the rest of the text from its beginning on.
proof fn lemma_parts_shift(s: Seq<char>, sep: char, i: int, cur: Seq<char>)
    requires
        0 <= i <= s.len(),
    ensures
        parts_from(s, sep, i, cur) == parts_from(s.subrange(i, s.len() as int), sep, 0, cur),
    decreases s.len() - i,
{
    let t = s.subrange(i, s.len() as int);
    if i < s.len() {
        let next = if s[i] == sep {
            Seq::<char>::empty()
        } else {
            cur.push(s[i])
        };
        lemma_parts_shift(s, sep, i + 1, next);
        lemma_parts_shift(t, sep, 1, next);
        assert(t.subrange(1, t.len() as int) =~= s.subrange(i + 1, s.len() as int));
    }
}

/// A text without the separator adds to the part that is being read.
proof fn lemma_parts_plain(a: Seq<char>, sep: char, rest: Seq<char>, cur: Seq<char>)
    requires
        !a.contains(sep),
    ensures
        parts_from(a + rest, sep, 0, cur) == parts_from(rest, sep, 0, cur + a),
    decreases a.len(),
{
    if a.len() == 0 {
        assert(a + rest =~= rest);
        assert(cur + a =~= cur);
    } else {
        let s = a + rest;
        let tail = a.subrange(1, a.len() as int);
        assert(a.contains(a[0]));
        assert(s[0] == a[0]);
        lemma_parts_shift(s, sep, 1, cur.push(a[0]));
        assert(s.subrange(1, s.len() as int) =~= tail + rest);
        assert(!tail.contains(sep)) by {
            if tail.contains(sep) {
                let k = choose|k: int| 0 <= k < tail.len() && tail[k] == sep;
                assert(a[k + 1] == sep);
            }
        }
        lemma_parts_plain(tail, sep, rest, cur.push(a[0]));
        assert(cur.push(a[0]) + tail =~= cur + a);
    }
}

/// A separator parts a text: what stands before the first one is a part, and the parts behind it
/// follow. A text without separators is its only part.
pub proof fn law_separators_part_a_text(a: Seq<char>, sep: char, b: Seq<char>)
    requires
        !a.contains(sep),
    ensures
        parts_of(a.push(sep) + b, sep) == seq![a] + parts_of(b, sep),
        parts_of(a, sep) == seq![a],
{
    let none = Seq::<char>::empty();
    let rest = seq![sep] + b;
    assert(a.push(sep) + b =~= a + rest);
    lemma_parts_plain(a, sep, rest, none);
    assert(none + a =~= a);
    lemma_parts_shift(rest, sep, 1, none);
    assert(rest.subrange(1, rest.len() as int) =~= b);
    lemma_parts_plain(a, sep, none, none);
    assert(a + none =~= a);
}

/// The path of an address is the value of its first key `path`.
pub proof fn law_first_path_key_counts(
    key: Seq<char>,
    value: Seq<char>,
    more: Seq<Seq<char>>,
)
    ensures
        path_value(seq!["path="@ + value] + more) == Some(value),
        !"path="@.is_prefix_of(key) ==> path_value(seq![key] + more) == path_value(more),
        path_value(Seq::empty()) is None,
{
    let keys = seq!["path="@ + value] + more;
    assert(keys[0].subrange(0, "path="@.len() as int) =~= "path="@);
    assert(keys[0].subrange("path="@.len() as int, keys[0].len() as int) =~= value);
    let other = seq![key] + more;
    assert(other.subrange(1, other.len() as int) =~= more);
}

/// The bus of an address list is that of the first address that gives a path; an address gives one
/// where it is that of a Unix socket.
pub proof fn law_first_address_with_a_path_counts(a: Seq<char>, b: Seq<char>)
    requires
        !a.contains(','),
    ensures
        entry_path(a) is Some ==> dbus_path(a.push(',') + b) == entry_path(a),
        entry_path(a) is None ==> dbus_path(a.push(',') + b) == dbus_path(b),
        dbus_path(a) == entry_path(a),
{
    law_separators_part_a_text(a, ',', b);
    let all = seq![a] + parts_of(b, ',');
    assert(all[0] == a);
    assert(all.subrange(1, all.len() as int) =~= parts_of(b, ','));
    let one = seq![a];
    assert(one.subrange(1, one.len() as int) =~= Seq::empty());
    assert(first_path(one.subrange(1, one.len() as int)) is None);
}

/// The path of a session bus is read from its address, whatever further keys follow.
pub proof fn law_bus_path_is_read_from_the_address(path: Seq<char>, more: Seq<char>)
    requires
        path.len() > 0,
        !path.contains(',') && !path.contains(';'),
        !is_white_space(path[path.len() - 1]),
        !more.contains(','),
        more.len() > 0 ==> !is_white_space(more[more.len() - 1]),
    ensures
        dbus_path("unix:path="@ + path) == Some(path),
        dbus_path("unix:path="@ + path.push(';') + more) == Some(path),
{
    reveal_strlit("unix:path=");
    reveal_strlit("unix:");
    reveal_strlit("path=");
    let first = "path="@ + path;
    let one = "unix:path="@ + path;
    let two = "unix:path="@ + path.push(';') + more;
    assert(one =~= "unix:"@ + first);
    assert(two =~= "unix:"@ + (first.push(';') + more));
    assert(!first.contains(';')) by {
        assert forall|k: int| 0 <= k < first.len() implies first[k] != ';' by {
            if k >= 5 {
                assert(path.contains(path[k - 5]));
            }
        }
    }
    lemma_unix_address(first);
    lemma_unix_address(first.push(';') + more);
    law_separators_part_a_text(first, ';', more);
    law_first_path_key_counts(first, path, Seq::empty());
    law_first_path_key_counts(first, path, parts_of(more, ';'));
    assert(seq![first] + Seq::<Seq<char>>::empty() =~= seq![first]);
    assert(!one.contains(',')) by {
        assert forall|k: int| 0 <= k < one.len() implies one[k] != ',' by {
            if k >= 10 {
                assert(path.contains(path[k - 10]));
            }
        }
    }
    assert(!two.contains(',')) by {
        assert forall|k: int| 0 <= k < two.len() implies two[k] != ',' by {
            if 10 <= k < 10 + path.len() {
                assert(two[k] == path[k - 10]);
                assert(path.contains(path[k - 10]));
            } else if k > 10 + path.len() {
                assert(two[k] == more[k - 11 - path.len()]);
                assert(more.contains(more[k - 11 - path.len()]));
            }
        }
    }
    law_first_address_with_a_path_counts(one, Seq::empty());
    law_first_address_with_a_path_counts(two, Seq::empty());
}

/// The address of a Unix socket gives the path among its keys.
proof fn lemma_unix_address(keys: Seq<char>)
    requires
        keys.len() > 0 ==> !is_white_space(keys[keys.len() - 1]),
    ensures
        entry_path("unix:"@ + keys) == path_value(parts_of(keys, ';')),
{
    reveal_strlit("unix:");
    let s = "unix:"@ + keys;
    let none = Seq::<char>::empty();
    assert(s[0] == 'u');
    assert(s[s.len() - 1] == if keys.len() > 0 {
        keys[keys.len() - 1]
    } else {
        ':'
    });
    assert(none + s + none =~= s);
    law_trim_takes_white_space_from_the_ends(none, s, none);
    assert(s.subrange(0, 5) =~= "unix:"@);
    assert(s.subrange(5, s.len() as int) =~= keys);
}

/// A number keeps its sign in decimal notation.
pub proof fn law_signed_numbers(n: nat)
    ensures
        signed_decimal(n as int) == decimal_spec(n),
        n > 0 ==> signed_decimal(-n) == "-"@ + decimal_spec(n),
{
}

/// Whatever the host is like, the command begins with the words that take the network, the host
/// name and the communication between processes away from the container, end its life with its
/// parent's and clear its environment; then it sets the environment anew, mounts the document from
/// the descriptor into a file system in RAM, and shows places of the host; it ends with the viewer,
/// which gets no network and may only read the document.
pub proof fn law_command_of_the_container(
    fd: int,
    xdg_runtime: Seq<char>,
    wayland_display: Seq<char>,
    home: Seq<char>,
    dbus_addr: Seq<char>,
    host: HostPaths,
)
    ensures
        bwrap_args(fd, xdg_runtime, wayland_display, home, dbus_addr, host) == seq![
            "bwrap"@,
            "--unshare-ipc"@,
            "--unshare-net"@,
            "--unshare-uts"@,
            "--die-with-parent"@,
            "--new-session"@,
            "--clearenv"@,
        ] + seq![
            "--setenv"@,
            "WAYLAND_DISPLAY"@,
            wayland_display,
            "--setenv"@,
            "XDG_RUNTIME_DIR"@,
            xdg_runtime,
            "--setenv"@,
            "HOME"@,
            home,
        ] + (if dbus_addr.len() > 0 {
            seq!["--setenv"@, "DBUS_SESSION_BUS_ADDRESS"@, dbus_addr]
        } else {
            Seq::empty()
        }) + seq!["--proc"@, "/proc"@, "--dev"@, "/dev"@] + (if host.fuse {
            seq!["--dev-bind"@, "/dev/fuse"@, "/dev/fuse"@]
        } else {
            Seq::empty()
        }) + seq!["--tmpfs"@, "/tmp"@, "--file"@, signed_decimal(fd), "/tmp/document.pdf"@]
            + host_places(host, xdg_runtime, home, dbus_addr) + seq![
            "--"@,
            "flatpak"@,
            "run"@,
            "--no-network"@,
            "--filesystem=/tmp:ro"@,
            "org.gnome.Papers"@,
            "/tmp/document.pdf"@,
        ],
{
    assert(variable("WAYLAND_DISPLAY"@, wayland_display) + variable("XDG_RUNTIME_DIR"@, xdg_runtime)
        + variable("HOME"@, home) =~= seq![
        "--setenv"@,
        "WAYLAND_DISPLAY"@,
        wayland_display,
        "--setenv"@,
        "XDG_RUNTIME_DIR"@,
        xdg_runtime,
        "--setenv"@,
        "HOME"@,
        home,
    ]);
    let e = environment(xdg_runtime, wayland_display, home, dbus_addr);
    let d = document(fd, host.fuse);
    let a = isolation();
    assert(a + e + d =~= a + (variable("WAYLAND_DISPLAY"@, wayland_display) + variable(
        "XDG_RUNTIME_DIR"@,
        xdg_runtime,
    ) + variable("HOME"@, home)) + when(
        dbus_addr.len() > 0,
        variable("DBUS_SESSION_BUS_ADDRESS"@, dbus_addr),
    ) + seq!["--proc"@, "/proc"@, "--dev"@, "/dev"@] + when(
        host.fuse,
        shown("--dev-bind"@, "/dev/fuse"@),
    ) + seq!["--tmpfs"@, "/tmp"@, "--file"@, signed_decimal(fd), "/tmp/document.pdf"@]);
}

/// The container sees of the host what is there of the system, the viewers and the session, each at
/// its own place: the system and the viewers to be read only.
pub proof fn law_places_of_the_container(
    host: HostPaths,
    xdg_runtime: Seq<char>,
    home: Seq<char>,
    dbus_addr: Seq<char>,
)
    ensures
        host_places(host, xdg_runtime, home, dbus_addr) == (if host.usr {
            seq!["--ro-bind"@, "/usr"@, "/usr"@]
        } else {
            Seq::empty()
        }) + (if host.etc {
            seq!["--ro-bind"@, "/etc"@, "/etc"@]
        } else {
            Seq::empty()
        }) + (if host.sys {
            seq!["--ro-bind"@, "/sys"@, "/sys"@]
        } else {
            Seq::empty()
        }) + (if host.lib {
            seq!["--ro-bind"@, "/lib"@, "/lib"@]
        } else {
            Seq::empty()
        }) + (if host.lib64 {
            seq!["--ro-bind"@, "/lib64"@, "/lib64"@]
        } else {
            Seq::empty()
        }) + ((if host.system_flatpak {
            seq!["--ro-bind"@, "/var/lib/flatpak"@, "/var/lib/flatpak"@]
        } else {
            Seq::empty()
        }) + (if host.user_flatpak {
            seq![
                "--ro-bind"@,
                home + "/.local/share/flatpak"@,
                home + "/.local/share/flatpak"@,
            ]
        } else {
            Seq::empty()
        })) + ((if host.runtime_dir {
            seq!["--bind"@, xdg_runtime, xdg_runtime]
        } else {
            Seq::empty()
        }) + (if host.bus_socket && dbus_path(dbus_addr) is Some {
            seq!["--bind"@, dbus_path(dbus_addr)->Some_0, dbus_path(dbus_addr)->Some_0]
        } else {
            Seq::empty()
        })),
{
}

/// Candidates and rules are seen with their path, one for one.
pub proof fn law_candidates_as_plain_values(
    c: Seq<Candidate<String>>,
    r: Seq<Rule<String>>,
    i: int,
)
    ensures
        candidate_views(c).len() == c.len(),
        0 <= i < c.len() ==> candidate_views(c)[i].path == c[i].path@ && candidate_views(c)[i].present
            == c[i].present,
        rule_views(r).len() == r.len(),
        0 <= i < r.len() ==> rule_views(r)[i].path == r[i].path@ && rule_views(r)[i].rights
            == r[i].rights,
{
}

/// What is logged says how far the confinement is enforced.
pub proof fn law_status_is_logged(status: LandlockStatus)
    ensures
        match status {
            LandlockStatus::FullyEnforced => status_line(status)
                == "[Sandbox] Landlock inner sandbox: fully enforced (ABI V5)."@,
            LandlockStatus::PartiallyEnforced => status_line(status)
                == "[Sandbox] Landlock inner sandbox: partially enforced (kernel ABI < V5 — some access flags unavailable)."@,
            LandlockStatus::NotEnforced => status_line(status)
                == "[Sandbox] Warning: Landlock LSM not supported on this kernel. Process filesystem access is unrestricted."@,
        },
{
}

} // verus!
