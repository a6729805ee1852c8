use indexmap::IndexMap;
use rtx::env::EnvironmentPatch;
use rtx::hook::{hook_env, reconcile, render, rewrite_path, EnvChange};
use rtx::marker::{decode, encode};
use rtx::path::{find_segment, holds_colon, join_path, remove_segment, split_path};
use rtx::shell::elvish::Elvish;
use rtx::shell::zsh::Zsh;

fn strings(list: &[&str]) -> Vec<String> {
    list.iter().map(|s| s.to_string()).collect()
}

fn patch(paths: &[&str], vars: &[(&str, &str)]) -> EnvironmentPatch {
    let mut map: IndexMap<String, String> = IndexMap::new();
    for (k, v) in vars {
        map.insert(k.to_string(), v.to_string());
    }
    EnvironmentPatch { path_prepend: strings(paths), vars: map }
}

fn assign(name: &str, value: &str) -> EnvChange {
    EnvChange::Assign { name: name.to_string(), value: value.to_string() }
}

fn unset(name: &str) -> EnvChange {
    EnvChange::Unset { name: name.to_string() }
}

/// The value of a variable once the changes are made.
fn after(changes: &[EnvChange], name: &str, before: Option<&str>) -> Option<String> {
    let mut value = before.map(|v| v.to_string());
    for change in changes {
        match change {
            EnvChange::Assign { name: n, value: v } if n == name => value = Some(v.clone()),
            EnvChange::Unset { name: n } if n == name => value = None,
            _ => {}
        }
    }
    value
}

#[test]
fn patches_are_made_and_copied() {
    let empty = EnvironmentPatch::new();
    assert!(empty.path_prepend.is_empty());
    assert!(empty.vars.is_empty());
    let original = patch(&["/a", "/b"], &[("K", "v"), ("L", "w")]);
    let copy = original.clone();
    assert_eq!(copy.path_prepend, original.path_prepend);
    let rows: Vec<_> = copy.vars.iter().collect();
    let wanted: Vec<_> = original.vars.iter().collect();
    assert_eq!(rows, wanted);
}

#[test]
fn the_search_path_is_split_and_joined() {
    assert_eq!(split_path("/a:/b"), strings(&["/a", "/b"]));
    assert_eq!(split_path(""), strings(&[""]));
    assert_eq!(split_path(":"), strings(&["", ""]));
    assert_eq!(split_path("/a::/b:"), strings(&["/a", "", "/b", ""]));
    assert_eq!(join_path(&strings(&["/a", "/b"])), "/a:/b");
    assert_eq!(join_path(&strings(&[])), "");
    assert_eq!(join_path(&strings(&[""])), "");
    assert_eq!(join_path(&strings(&["", ""])), ":");
    for text in ["", ":", "/usr/bin:/bin", "a::b:", "::"] {
        assert_eq!(join_path(&split_path(text)), text);
    }
    assert!(holds_colon("a:b"));
    assert!(!holds_colon("ab"));
}

#[test]
fn the_first_stretch_is_taken_out() {
    let list = strings(&["x", "a", "b", "y", "a", "b"]);
    assert_eq!(find_segment(&list, &strings(&["a", "b"])), Some(1));
    assert_eq!(remove_segment(&list, &strings(&["a", "b"])), strings(&["x", "y", "a", "b"]));
    assert_eq!(find_segment(&list, &strings(&["b", "a"])), None);
    assert_eq!(remove_segment(&list, &strings(&["b", "a"])), list);
    assert_eq!(find_segment(&list, &strings(&[])), None);
    assert_eq!(remove_segment(&list, &strings(&[])), list);
    assert_eq!(remove_segment(&list, &list), strings(&[]));
    assert_eq!(remove_segment(&strings(&["a"]), &strings(&["a", "b"])), strings(&["a"]));
    assert_eq!(find_segment(&list, &strings(&["a", "b", "y", "a", "b"])), Some(1));
}

#[test]
fn the_search_path_is_rewritten() {
    assert_eq!(
        rewrite_path("/old/bin:/usr/bin:/bin", &strings(&["/old/bin"]), &strings(&["/new/bin"])),
        "/new/bin:/usr/bin:/bin"
    );
    assert_eq!(
        rewrite_path("/mine:/old/a:/old/b:/usr/bin", &strings(&["/old/a", "/old/b"]), &strings(&[])),
        "/mine:/usr/bin"
    );
    assert_eq!(rewrite_path("/usr/bin", &strings(&[]), &strings(&[])), "/usr/bin");
    assert_eq!(rewrite_path("/usr/bin", &strings(&["/gone"]), &strings(&["/n"])), "/n:/usr/bin");
    assert_eq!(rewrite_path("", &strings(&[]), &strings(&[])), "");
    assert_eq!(rewrite_path("/a", &strings(&["/a"]), &strings(&[])), "");
}

#[test]
fn a_record_is_read_back() {
    let patches = vec![
        patch(&[], &[]),
        patch(&["/installs/node/20/bin"], &[("NODE_HOME", "/installs/node/20")]),
        patch(&["", "/a b", "/ü/bin"], &[("K", ""), ("", "v"), ("W", "a,b=c+d\n'\"\\n")]),
        patch(&["/x", "/x"], &[("A", "1"), ("B", "1")]),
    ];
    for p in patches {
        let record = encode(&p);
        assert!(!record.is_empty());
        assert!(record.chars().all(|c| c.is_ascii_alphanumeric() || "-_=/,.+".contains(c)));
        let read = decode(&record).unwrap();
        assert_eq!(read.path_prepend, p.path_prepend);
        assert_eq!(read.vars, p.vars);
        let pairs: Vec<_> = read.vars.iter().collect();
        let wanted: Vec<_> = p.vars.iter().collect();
        assert_eq!(pairs, wanted);
    }
}

#[test]
fn records_are_written_exactly() {
    assert_eq!(encode(&patch(&[], &[])), "=");
    assert_eq!(encode(&patch(&["/a", "b c"], &[])), "/a,b+000020c,=");
    assert_eq!(encode(&patch(&[], &[("K", "v=1")])), "=K,v+00003d1,");
    assert_eq!(encode(&patch(&[""], &[("", "")])), ",=,,");
    assert_eq!(encode(&patch(&["\u{10FFFF}"], &[])), "+10ffff,=");
    assert_eq!(encode(&patch(&["aZ09-_/."], &[])), "aZ09-_/.,=");
}

#[test]
fn what_is_no_record_is_not_read() {
    for text in [
        "", "x", "a,", "=a", "=a,", "a=", "a,=b", "=,", "=a,b,c,", "==", "+00006", "+00006g,=",
        "+d80000,=", "+110000,=", "a b,=", "=PATH,x,", "=__RTX_DIFF,x,", "=K,1,K,2,", "+00003a,=",
        "=a,b,+", "A,=\n",
    ] {
        assert!(decode(text).is_none(), "{text:?}");
    }
    assert!(decode("=").is_some());
    assert!(decode("+000061,=").is_some());
    assert_eq!(decode("+000061,=").unwrap().path_prepend, strings(&["a"]));
    assert_eq!(decode("=+00003a,v,").unwrap().vars.get(":"), Some(&"v".to_string()));
}

#[test]
fn the_first_run_sets_everything() {
    let wanted = patch(&["/n/bin"], &[("NODE_HOME", "/n")]);
    let changes = reconcile(None, "/usr/bin:/bin", &wanted);
    assert_eq!(
        changes,
        vec![
            assign("NODE_HOME", "/n"),
            assign("PATH", "/n/bin:/usr/bin:/bin"),
            assign("__RTX_DIFF", "/n/bin,=NODE_HOME,/n,"),
        ]
    );
}

#[test]
fn a_second_run_changes_nothing() {
    let cases = vec![
        (None, "/usr/bin:/bin", patch(&["/n/bin"], &[("NODE_HOME", "/n")])),
        (None, "", patch(&[], &[])),
        (None, "/usr/bin", patch(&[], &[])),
        (Some("garbage"), "/usr/bin", patch(&["/a", "/b"], &[("X", "1"), ("Y", "2")])),
        (Some("/old,=OLD,1,"), "/old:/usr/bin", patch(&["/usr/bin"], &[("OLD", "2")])),
        (Some("/old,=OLD,1,"), "/old", patch(&[], &[])),
        (None, "/n/bin:/usr/bin", patch(&["/n/bin"], &[])),
        (None, ":", patch(&[""], &[])),
    ];
    for (marker, path, wanted) in cases {
        let first = reconcile(marker, path, &wanted);
        let record = after(&first, "__RTX_DIFF", marker);
        let search = after(&first, "PATH", Some(path)).unwrap();
        let second = reconcile(record.as_deref(), &search, &wanted);
        assert_eq!(second, vec![], "{marker:?} {path:?}");
        assert_eq!(hook_env(&Zsh::default(), record.as_deref(), &search, &wanted), "");
    }
}

#[test]
fn the_record_of_one_run_is_the_prior_patch_of_the_next() {
    let wanted = patch(&["/n/bin", "/p/bin"], &[("NODE_HOME", "/n"), ("PY", "3 11")]);
    let first = reconcile(None, "/usr/bin", &wanted);
    let record = after(&first, "__RTX_DIFF", None).unwrap();
    let read = decode(&record).unwrap();
    assert_eq!(read.path_prepend, wanted.path_prepend);
    assert_eq!(read.vars, wanted.vars);
}

#[test]
fn moving_on_undoes_what_was_done() {
    let before = patch(&["/n18/bin", "/py/bin"], &[("NODE_HOME", "/n18"), ("PY", "1"), ("KEEP", "k")]);
    let first = reconcile(None, "/usr/bin:/bin", &before);
    let record = after(&first, "__RTX_DIFF", None).unwrap();
    let search = after(&first, "PATH", Some("/usr/bin:/bin")).unwrap();
    assert_eq!(search, "/n18/bin:/py/bin:/usr/bin:/bin");

    let now = patch(&["/n20/bin"], &[("KEEP", "k"), ("NODE_HOME", "/n20"), ("NEW", "n")]);
    let changes = reconcile(Some(&record), &search, &now);
    assert_eq!(
        changes,
        vec![
            unset("PY"),
            assign("NODE_HOME", "/n20"),
            assign("NEW", "n"),
            assign("PATH", "/n20/bin:/usr/bin:/bin"),
            assign("__RTX_DIFF", &encode(&now)),
        ]
    );

    let leaving = reconcile(Some(&encode(&now)), "/n20/bin:/usr/bin:/bin", &patch(&[], &[]));
    assert_eq!(
        leaving,
        vec![
            unset("KEEP"),
            unset("NODE_HOME"),
            unset("NEW"),
            assign("PATH", "/usr/bin:/bin"),
            assign("__RTX_DIFF", "="),
        ]
    );
}

#[test]
fn the_shell_ends_up_with_the_patch() {
    let before = patch(&["/n18/bin"], &[("NODE_HOME", "/n18"), ("GONE", "1"), ("SAME", "s")]);
    let record = encode(&before);
    let now = patch(&["/n20/bin"], &[("SAME", "s"), ("NODE_HOME", "/n20"), ("NEW", "n")]);
    let changes = reconcile(Some(&record), "/n18/bin:/usr/bin", &now);
    assert_eq!(after(&changes, "NODE_HOME", Some("/n18")), Some("/n20".to_string()));
    assert_eq!(after(&changes, "NEW", None), Some("n".to_string()));
    assert_eq!(after(&changes, "SAME", Some("s")), Some("s".to_string()));
    assert_eq!(after(&changes, "GONE", Some("1")), None);
    assert_eq!(after(&changes, "HOME", Some("/home/me")), Some("/home/me".to_string()));
    assert_eq!(after(&changes, "EDITOR", None), None);
    let search = after(&changes, "PATH", Some("/n18/bin:/usr/bin")).unwrap();
    assert_eq!(split_path(&search), strings(&["/n20/bin", "/usr/bin"]));
}

#[test]
fn what_the_shell_set_itself_is_kept() {
    let before = patch(&["/n/bin"], &[]);
    let record = encode(&before);
    let changes = reconcile(Some(&record), "/mine:/n/bin:/usr/bin", &patch(&["/m/bin"], &[]));
    assert_eq!(after(&changes, "PATH", None), Some("/m/bin:/mine:/usr/bin".to_string()));
}

#[test]
fn a_broken_record_counts_as_none() {
    let wanted = patch(&["/n/bin"], &[("A", "1")]);
    let fresh = reconcile(None, "/usr/bin", &wanted);
    let broken = reconcile(Some("%%%"), "/usr/bin", &wanted);
    assert_eq!(fresh, broken);
}

#[test]
fn changes_are_written_in_the_dialect_of_the_shell() {
    let changes = vec![unset("OLD"), assign("A", "1"), assign("B", "two words")];
    assert_eq!(render(&Zsh::default(), &changes), "unset OLD\nexport A=1\nexport B='two words'\n");
    assert_eq!(
        render(&Elvish::default(), &changes),
        "unset-env OLD\nset-env A 1\nset-env B 'two words'\n"
    );
    assert_eq!(render(&Zsh::default(), &vec![]), "");
}

#[test]
fn the_hook_writes_statements() {
    let wanted = patch(&["/n/bin"], &[("NODE_HOME", "/n")]);
    assert_eq!(
        hook_env(&Zsh::default(), None, "/usr/bin", &wanted),
        "export NODE_HOME=/n\nexport PATH='/n/bin:/usr/bin'\nexport __RTX_DIFF=/n/bin,=NODE_HOME,/n,\n"
    );
    assert_eq!(
        hook_env(&Elvish::default(), None, "/usr/bin", &wanted),
        "set-env NODE_HOME /n\nset-env PATH '/n/bin:/usr/bin'\nset-env __RTX_DIFF /n/bin,=NODE_HOME,/n,\n"
    );
}
