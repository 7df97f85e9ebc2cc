use std::collections::BTreeMap;

use rtok::memory::{project_name as checkout_name, ProjectProbe};
use rtok::project::{project_name, DotGit, ProjectStep};

/// Files by absolute path; a directory exists when some file lies under it.
struct Files(BTreeMap<String, String>);

impl Files {
    fn new() -> Files {
        Files(BTreeMap::new())
    }

    fn write(&mut self, path: &str, text: impl Into<String>) {
        self.0.insert(path.to_string(), text.into());
    }

    fn dot_git(&self, path: &str) -> DotGit {
        if let Some(t) = self.0.get(path) {
            DotGit::File(t.clone())
        } else if self.0.keys().any(|k| k.starts_with(&format!("{path}/"))) {
            DotGit::Other
        } else {
            DotGit::Missing
        }
    }

    fn holds(&self, path: &str) -> bool {
        self.0.contains_key(path) || self.0.keys().any(|k| k.starts_with(&format!("{path}/")))
    }

    fn resolve(&self, cwd: &str) -> Option<String> {
        let mut probes = Vec::new();
        let mut reads = Vec::new();
        loop {
            match project_name(cwd, &probes, &reads) {
                ProjectStep::ReadDotGit(p) => probes.push(self.dot_git(&p)),
                ProjectStep::ReadFile(p) => reads.push(self.0.get(&p).cloned()),
                ProjectStep::Done(n) => return n,
            }
        }
    }

    fn checkout(&self, cwd: &str) -> Option<String> {
        let mut seen = Vec::new();
        loop {
            match checkout_name(cwd, &seen) {
                ProjectProbe::Check(p) => seen.push(self.holds(&p)),
                ProjectProbe::Found(n) => return n,
            }
        }
    }
}

/// A main checkout with an `origin` and one linked worktree whose paths are relative.
fn fixture(url: &str) -> Files {
    let mut f = Files::new();
    f.write(
        "/home/me/rtok/.git/config",
        format!("[core]\n\tbare = false\n[remote \"origin\"]\n\turl = {url}\n\tfetch = +refs/heads/*:refs/remotes/origin/*\n"),
    );
    f.write("/home/me/rtok/.git/HEAD", "ref: refs/heads/main\n");
    f.write("/home/me/rtok/.git/worktrees/rtok-t133/commondir", "../..\n");
    f.write("/home/me/rtok/.git/worktrees/rtok-t133/gitdir", "/home/me/_worktrees/rtok-t133/.git\n");
    f.write("/home/me/_worktrees/rtok-t133/.git", "gitdir: ../../rtok/.git/worktrees/rtok-t133\n");
    f.write("/home/me/_worktrees/rtok-t133/src/lib.rs", "");
    f
}

#[test]
fn main_checkout_and_linked_worktree_resolve_to_one_project() {
    let f = fixture("git@github.com:listepo/rtok-notes.git");
    let main = f.resolve("/home/me/rtok/src");
    let linked = f.resolve("/home/me/_worktrees/rtok-t133/src");
    assert_eq!(main.as_deref(), Some("rtok-notes"));
    assert_eq!(linked, main);
}

#[test]
fn plain_directory_is_no_project() {
    let mut f = Files::new();
    f.write("/home/me/scratch/notes.txt", "");
    assert_eq!(f.resolve("/home/me/scratch"), None);
}

#[test]
fn without_origin_the_main_checkout_basename_names_the_project() {
    let mut f = Files::new();
    f.write("/home/me/local-only/.git/HEAD", "ref: refs/heads/main\n");
    f.write("/home/me/local-only/.git/worktrees/wt/commondir", "../..\n");
    f.write("/home/me/wt/.git", "gitdir: /home/me/local-only/.git/worktrees/wt\n");
    assert_eq!(f.resolve("/home/me/local-only").as_deref(), Some("local-only"));
    assert_eq!(f.resolve("/home/me/wt").as_deref(), Some("local-only"));
}

#[test]
fn origin_url_shapes_give_the_repo_name() {
    for (url, name) in [
        ("https://github.com/listepo/rtok", "rtok"),
        ("https://github.com/listepo/rtok.git/", "rtok"),
        ("ssh://git@github.com/listepo/rtok.git", "rtok"),
        ("file:///srv/git/rtok.git", "rtok"),
    ] {
        let f = fixture(url);
        assert_eq!(f.resolve("/home/me/rtok").as_deref(), Some(name), "{url}");
    }
}

#[test]
fn submodule_keeps_its_own_name() {
    let mut f = fixture("https://github.com/listepo/rtok");
    f.write("/home/me/rtok/vendor/dep/.git", "gitdir: ../../.git/modules/dep\n");
    f.write("/home/me/rtok/.git/modules/dep/HEAD", "ref: refs/heads/main\n");
    assert_eq!(f.resolve("/home/me/rtok/vendor/dep/src").as_deref(), Some("dep"));
}

#[test]
fn the_first_directory_up_with_a_git_names_the_checkout() {
    let mut f = Files::new();
    f.write("/home/me/proj/.git/HEAD", "ref: refs/heads/main\n");
    assert_eq!(f.checkout("/home/me/proj/src/deep").as_deref(), Some("proj"));
    assert_eq!(f.checkout("/home/me/other"), None);
    assert_eq!(f.checkout("/"), None);
}

#[test]
fn the_probes_walk_up_to_the_root_in_order() {
    assert!(matches!(checkout_name("/a/b", &vec![]), ProjectProbe::Check(p) if p == "/a/b/.git"));
    assert!(matches!(checkout_name("/a/b", &vec![false]), ProjectProbe::Check(p) if p == "/a/.git"));
    assert!(matches!(checkout_name("/a/b", &vec![false, false]), ProjectProbe::Check(p) if p == "/.git"));
    assert!(matches!(checkout_name("/a/b", &vec![false, false, false]), ProjectProbe::Found(None)));
    assert!(matches!(checkout_name("a/b", &vec![false, false]), ProjectProbe::Check(p) if p == ".git"));
}
