//! Finding and starting a viewer.

use atom_vault::gui::broker::{
    build_argv, data_bases, default_application, desktop_places, flatpak_filesystem_spec,
    grant_value, located_entry, parse_exec, query_mime, rewrite_flatpak_argv, single_percents,
    staged_name, tokenize_exec, viewer_argv, viewer_staging, watch_step, write_scope, WatchStep,
};
use atom_vault::paths::{extension, file_name, file_stem, path_within, push_path, staging_dir};

fn some(s: &str) -> Option<String> {
    Some(s.to_string())
}

#[test]
fn a_staged_copy_keeps_its_extension() {
    assert_eq!(staged_name("a.pdf"), "a_view_tmp.pdf");
    assert_eq!(staged_name("archive.tar.gz"), "archive.tar_view_tmp.gz");
    assert_eq!(staged_name("plain"), "plain_view_tmp");
    assert_eq!(staged_name(".hidden"), ".hidden_view_tmp");
    assert_eq!(viewer_staging(&some("/run/u"), &None), "/run/u/atom_staging");
    assert_eq!(viewer_staging(&None, &some("/h")), "/h/.atom_vault/atom_staging");
    assert_eq!(viewer_staging(&None, &None), "/tmp/.atom_vault/atom_staging");
}

/// The names of paths are those of the standard library.
#[test]
fn names_are_those_of_the_host() {
    for p in [
        "a", "a/b", "/a/b/", "/", "", ".", "..", "./", "./.", "a/.", "a/./", "a/..", "/a//b//", "a.b",
        "a.", ".a", ".a.b", "..a", "a..b", "/x/.", "a/../b.c", "/.", "//", "a/b.tar.gz/", "...", "a/...",
    ] {
        let path = std::path::Path::new(p);
        assert_eq!(file_name(p).as_deref(), path.file_name().and_then(|n| n.to_str()), "{p:?}");
        assert_eq!(file_stem(p).as_deref(), path.file_stem().and_then(|n| n.to_str()), "{p:?}");
        assert_eq!(extension(p).as_deref(), path.extension().and_then(|n| n.to_str()), "{p:?}");
    }
    assert_eq!(push_path("/a", "b"), "/a/b");
    assert_eq!(push_path("/a/", "b"), "/a/b");
    assert_eq!(push_path("", "b"), "b");
    assert!(path_within("/a/b", "/a") && path_within("/a", "/a") && !path_within("/ab", "/a"));
    assert_eq!(staging_dir(&some("/r"), &some("/h")).unwrap(), "/r/atom_staging");
    assert_eq!(staging_dir(&None, &some("/h")).unwrap(), "/h/.atom_vault/staging");
    assert!(staging_dir(&None, &None).is_err());
}

#[test]
fn command_lines_are_split_into_words() {
    assert_eq!(tokenize_exec("evince  %U"), vec!["evince", "%U"]);
    assert_eq!(tokenize_exec("\"a b\" c"), vec!["a b", "c"]);
    assert_eq!(tokenize_exec("\"a \\\" \\\\ b\""), vec!["a \" \\ b"]);
    assert_eq!(tokenize_exec("x \"\" y"), vec!["x", "", "y"]);
    assert_eq!(tokenize_exec("a\\ b"), vec!["a\\", "b"]);
    assert_eq!(tokenize_exec("\t "), Vec::<String>::new());
    assert_eq!(tokenize_exec("pre\"mid dle\"post"), vec!["premid dlepost"]);
}

#[test]
fn codes_are_filled_in() {
    assert_eq!(build_argv("evince %U", "/t/a b.pdf"), vec!["evince", "/t/a b.pdf"]);
    assert_eq!(build_argv("app %i %c --x=100%%", "/f"), vec!["app", "--x=100%", "/f"]);
    assert_eq!(build_argv("", "/f"), vec!["/f"]);
    assert_eq!(single_percents("%%%"), "%%");
    assert_eq!(single_percents("%%%%"), "%%");
}

fn words(v: &[&str]) -> Vec<String> {
    v.iter().map(|s| s.to_string()).collect()
}

#[test]
fn a_flatpak_viewer_bypasses_the_portal() {
    let argv = words(&[
        "/usr/bin/flatpak", "run", "--branch=stable", "--file-forwarding", "org.App", "@@u", "/f", "@@",
    ]);
    assert_eq!(
        rewrite_flatpak_argv(&argv, "xdg-run/f:ro", false).unwrap(),
        words(&[
            "/usr/bin/flatpak", "run", "--unshare=network", "--die-with-parent",
            "--filesystem=xdg-run/f:ro", "--branch=stable", "org.App", "/f",
        ]),
    );
    assert!(rewrite_flatpak_argv(&argv, "g", true).unwrap_err().contains("inside a flatpak sandbox"));
    assert_eq!(
        rewrite_flatpak_argv(&words(&["flatpak", "list"]), "g", false),
        Err("Unrecognised flatpak invocation (no `run` subcommand)"),
    );
}

#[test]
fn a_grant_is_relative_to_the_runtime_directory() {
    assert_eq!(
        flatpak_filesystem_spec("/run/u/atom_staging/a.pdf", &some("/run/u")),
        "xdg-run/atom_staging/a.pdf:ro",
    );
    assert_eq!(flatpak_filesystem_spec("/tmp/a.pdf", &some("/run/u")), "/tmp/a.pdf:ro");
    assert_eq!(flatpak_filesystem_spec("/tmp/a.pdf", &some("")), "/tmp/a.pdf:ro");
    assert_eq!(flatpak_filesystem_spec("/tmp/a.pdf", &None), "/tmp/a.pdf:ro");
    assert_eq!(grant_value("/x", &some("y")), "xdg-run/y:ro");
}

#[test]
fn the_type_of_a_file_is_found() {
    assert_eq!(query_mime(&some("image/avif"), "a.pdf").unwrap(), "image/avif");
    assert_eq!(query_mime(&some(""), "a.PDF").unwrap(), "application/pdf");
    assert_eq!(query_mime(&None, "a.jpeg").unwrap(), "image/jpeg");
    assert_eq!(query_mime(&None, "a.md").unwrap(), "text/plain");
    assert!(query_mime(&None, "a.xyz").is_err());
    assert!(query_mime(&None, "a").is_err());
    assert_eq!(default_application("a/b", &some("x.desktop")).unwrap(), "x.desktop");
    assert_eq!(
        default_application("a/b", &some("")).unwrap_err(),
        "No default application registered for a/b",
    );
    assert_eq!(located_entry("x", &None).unwrap_err(), "Cannot locate desktop file 'x'");
    assert_eq!(located_entry("x", &some("/p")).unwrap(), "/p");
}

#[test]
fn the_command_of_an_entry_is_found() {
    let entry = "[Desktop Action new]\nExec=wrong\n[Desktop Entry]\r\nName=X\n  Exec=evince %U \nExec=later\n";
    assert_eq!(parse_exec(entry).as_deref(), Some("evince %U"));
    assert_eq!(parse_exec("Exec=outside\n"), None);
    assert_eq!(
        viewer_argv("/d", &some(entry), "/f.pdf", &None, false).unwrap(),
        words(&["evince", "/f.pdf"]),
    );
    assert_eq!(viewer_argv("/d", &None, "/f", &None, false).unwrap_err(), "No Exec line in /d");
    let flatpak = "[Desktop Entry]\nExec=flatpak run --file-forwarding org.App @@u %U @@\n";
    assert_eq!(
        viewer_argv("/d", &some(flatpak), "/run/u/f", &some("/run/u"), false).unwrap(),
        words(&[
            "flatpak", "run", "--unshare=network", "--die-with-parent", "--filesystem=xdg-run/f:ro",
            "org.App", "/run/u/f",
        ]),
    );
    assert!(viewer_argv("/d", &some(flatpak), "/f", &None, true).is_err());
}

#[test]
fn entries_are_searched_in_order() {
    let bases = data_bases(&None, &some("/h"), &some("/a::/b"));
    assert_eq!(bases, words(&["/h/.local/share", "/a", "/b"]));
    assert_eq!(data_bases(&some("/d"), &some("/h"), &some("")), words(&["/d"]));
    assert_eq!(
        data_bases(&some(""), &None, &None),
        words(&["/usr/local/share", "/usr/share"]),
    );
    assert_eq!(
        desktop_places(&words(&["/a"]), "org-app.desktop"),
        words(&["/a/applications/org-app.desktop", "/a/applications/org/app.desktop"]),
    );
    assert_eq!(
        desktop_places(&words(&["/a"]), "/opt/x.desktop"),
        words(&["/opt/x.desktop", "/opt/x.desktop"]),
    );
    assert_eq!(
        desktop_places(&words(&["/a"]), "-x.desktop"),
        words(&["/a/applications/-x.desktop", "/x.desktop"]),
    );
}

#[test]
fn a_staged_file_is_destroyed_when_nobody_holds_it() {
    assert_eq!(watch_step(false, 0, false), WatchStep::Settle(250));
    assert_eq!(watch_step(false, 2999, true), WatchStep::Held(2000));
    assert_eq!(watch_step(false, 3000, true), WatchStep::Shred);
    assert_eq!(watch_step(true, 9000, true), WatchStep::Held(2000));
    assert_eq!(watch_step(true, 9000, false), WatchStep::Shred);
    assert_eq!(write_scope("/d/f", true, &some("/d")), "/d/f");
    assert_eq!(write_scope("/d/f", false, &some("/d")), "/d");
    assert_eq!(write_scope("/", false, &None), "/");
}
