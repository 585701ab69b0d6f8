use star_control::winpath::{
    join_win_path, lexically_normalize, parse_win_path, path_is_absolute, reparse_probe_paths, win_path_eq,
    win_path_starts_with, WinPath, WinPrefix,
};

fn path(text: &str) -> WinPath {
    parse_win_path(&text.chars().collect::<Vec<_>>())
}

fn parts(p: &WinPath) -> Vec<String> {
    p.parts.iter().map(|part| part.iter().collect()).collect()
}

#[test]
fn drive_and_unc_paths_parse_into_prefix_root_and_parts() {
    let p = path(r"c:\work\.\repo\\tmp");
    assert!(matches!(p.prefix, Some(WinPrefix::Disk('C'))));
    assert!(p.root);
    assert_eq!(parts(&p), vec!["work", "repo", "tmp"]);
    assert!(path_is_absolute(&p));
    let unc = path(r"\\server\share\dir");
    assert!(matches!(&unc.prefix, Some(WinPrefix::Unc(_, _))));
    assert!(path_is_absolute(&unc));
    assert!(!path_is_absolute(&path(r"\rooted\only")));
    assert!(!path_is_absolute(&path("relative/dir")));
}

#[test]
fn lexical_normalization_resolves_parent_steps() {
    let normalized = lexically_normalize(path(r"D:\work\repo\..\other")).unwrap();
    assert!(win_path_eq(&normalized, &path(r"D:\work\other")));
    assert!(lexically_normalize(path(r"D:\..")).is_none());
    let joined = join_win_path(&path(r"D:\work\repo"), path(r"tmp\x"));
    assert!(win_path_eq(&joined, &path(r"D:\work\repo\tmp\x")));
    assert!(win_path_starts_with(&joined, &path(r"d:\work")));
    assert!(!win_path_starts_with(&joined, &path(r"D:\wo")));
}

#[test]
fn reparse_probes_walk_every_component_below_the_root() {
    let probes = reparse_probe_paths(&path(r"C:\pkg"), &path(r"C:\pkg\schemas\input.json")).unwrap();
    assert_eq!(probes.len(), 2);
    assert!(win_path_eq(&probes[0], &path(r"C:\pkg\schemas")));
    assert!(win_path_eq(&probes[1], &path(r"C:\pkg\schemas\input.json")));
    assert!(reparse_probe_paths(&path(r"C:\pkg"), &path(r"C:\other\x.json")).is_none());
    assert_eq!(reparse_probe_paths(&path(r"C:\pkg"), &path(r"C:\pkg")).unwrap().len(), 0);
}
