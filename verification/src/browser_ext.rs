//! Launching a browser with the page-notes extension, and telling which changes in a
//! watched repository matter.
use crate::text::{contains_spec, lower_case, str_contains, str_eq, to_lowercase};
use vstd::prelude::*;

verus! {

/// Whether the process list output names the executable, letter case aside.
pub open spec fn tasklist_mentions_spec(output: Seq<char>, name: Seq<char>) -> bool {
    contains_spec(lower_case(output), lower_case(name))
}

/// Whether the text of the process list (the output of `tasklist` for an image name)
/// names the executable.
pub fn tasklist_mentions(output: &str, name: &str) -> (r: bool)
    ensures
        r == tasklist_mentions_spec(output@, name@),
{
    let o = to_lowercase(output);
    let n = to_lowercase(name);
    str_contains(o.as_str(), n.as_str())
}

/// The browsers tried, in order: their usual install paths and names.
pub open spec fn browser_candidates_spec() -> Seq<(Seq<char>, Seq<char>)> {
    seq![
        ("C:\\Program Files\\Google\\Chrome\\Application\\chrome.exe"@, "Chrome"@),
        ("C:\\Program Files (x86)\\Google\\Chrome\\Application\\chrome.exe"@, "Chrome"@),
        ("C:\\Program Files (x86)\\Microsoft\\Edge\\Application\\msedge.exe"@, "Edge"@),
        ("C:\\Program Files\\Microsoft\\Edge\\Application\\msedge.exe"@, "Edge"@),
    ]
}

/// The browsers tried, in order: their usual install paths and names.
pub fn browser_candidates() -> (r: Vec<(String, String)>)
    ensures
        r@.len() == browser_candidates_spec().len(),
        forall|i: int|
            0 <= i < r@.len() ==> (#[trigger] r@[i]).0@ == browser_candidates_spec()[i].0 && r@[i].1@
                == browser_candidates_spec()[i].1,
{
    let mut v: Vec<(String, String)> = Vec::new();
    v.push(("C:\\Program Files\\Google\\Chrome\\Application\\chrome.exe".to_owned(), "Chrome".to_owned()));
    v.push(("C:\\Program Files (x86)\\Google\\Chrome\\Application\\chrome.exe".to_owned(), "Chrome".to_owned()));
    v.push(("C:\\Program Files (x86)\\Microsoft\\Edge\\Application\\msedge.exe".to_owned(), "Edge".to_owned()));
    v.push(("C:\\Program Files\\Microsoft\\Edge\\Application\\msedge.exe".to_owned(), "Edge".to_owned()));
    v
}

/// The index of the first `true`.
pub open spec fn first_true(v: Seq<bool>) -> Option<int>
    decreases v.len(),
{
    if v.len() == 0 {
        None
    } else {
        match first_true(v.drop_last()) {
            Some(i) => Some(i),
            None => if v.last() {
                Some(v.len() - 1)
            } else {
                None
            },
        }
    }
}

/// Which browser to start with the extension, given whether Chrome and Edge already run
/// (the extension cannot be loaded into a running browser) and which candidates are
/// installed: the first installed candidate, or the error to show.
pub open spec fn launch_choice_spec(chrome_running: bool, edge_running: bool, installed: Seq<bool>) -> Result<int, Seq<char>> {
    if chrome_running {
        Err("Chrome 已在运行，请先关闭 Chrome 再点击启动"@)
    } else if edge_running {
        Err("Edge 已在运行，请先关闭 Edge 再点击启动"@)
    } else {
        match first_true(installed) {
            Some(i) => Ok(i),
            None => Err("未找到 Chrome 或 Edge，请安装其中一种浏览器"@),
        }
    }
}

/// Chooses the browser to start with the extension (see `launch_choice_spec`).
pub fn launch_choice(chrome_running: bool, edge_running: bool, installed: &Vec<bool>) -> (r: Result<usize, String>)
    ensures
        match launch_choice_spec(chrome_running, edge_running, installed@) {
            Ok(i) => r matches Ok(j) && j == i,
            Err(e) => r matches Err(m) && m@ == e,
        },
{
    if chrome_running {
        return Err("Chrome 已在运行，请先关闭 Chrome 再点击启动".to_owned());
    }
    if edge_running {
        return Err("Edge 已在运行，请先关闭 Edge 再点击启动".to_owned());
    }
    let mut i: usize = 0;
    while i < installed.len()
        invariant
            !chrome_running && !edge_running,
            i <= installed@.len(),
            first_true(installed@.take(i as int)) is None,
        decreases installed@.len() - i,
    {
        assert(installed@.take(i + 1).drop_last() =~= installed@.take(i as int));
        if installed[i] {
            proof {
                assert(first_true(installed@.take(i + 1)) == Some(i as int));
                lemma_first_true_prefix(installed@, i + 1);
            }
            return Ok(i);
        }
        i = i + 1;
    }
    assert(installed@.take(installed@.len() as int) =~= installed@);
    Err("未找到 Chrome 或 Edge，请安装其中一种浏览器".to_owned())
}

proof fn lemma_first_true_prefix(v: Seq<bool>, k: int)
    requires
        0 <= k <= v.len(),
        first_true(v.take(k)) is Some,
    ensures
        first_true(v) == first_true(v.take(k)),
    decreases v.len() - k,
{
    if k < v.len() {
        assert(v.take(k + 1).drop_last() =~= v.take(k));
        lemma_first_true_prefix(v, k + 1);
    } else {
        assert(v.take(k) =~= v);
    }
}

/// A change in a watched repository matters when its path lies outside `.git`, or, inside
/// it, when it is `HEAD`, the index, or a ref (the path relative to the repository given
/// too).
pub open spec fn relevant_change_spec(path: Seq<char>, relative: Seq<char>) -> bool {
    if contains_spec(path, ".git"@) {
        relative == ".git\\HEAD"@ || relative == ".git/HEAD"@ || contains_spec(relative, "refs/"@) || relative
            == ".git\\index"@ || relative == ".git/index"@
    } else {
        true
    }
}

/// Whether a changed path in a watched repository matters (see `relevant_change_spec`).
pub fn is_relevant_change(path: &str, relative: &str) -> (r: bool)
    ensures
        r == relevant_change_spec(path@, relative@),
{
    if str_contains(path, ".git") {
        str_eq(relative, ".git\\HEAD") || str_eq(relative, ".git/HEAD") || str_contains(relative, "refs/") || str_eq(
            relative,
            ".git\\index",
        ) || str_eq(relative, ".git/index")
    } else {
        true
    }
}

/// What moves the branch or the staging area is a relevant change: `HEAD` and `index`
/// inside `.git`, written with either separator (slash or backslash), and any path under
/// `refs/`; and every change outside `.git` is relevant.
pub proof fn law_relevant_changes(path: Seq<char>, sep: char, refs_before: Seq<char>, refs_after: Seq<char>)
    requires
        sep == '/' || sep == '\\',
    ensures
        relevant_change_spec(path, seq!['.', 'g', 'i', 't', sep, 'H', 'E', 'A', 'D']),
        relevant_change_spec(path, seq!['.', 'g', 'i', 't', sep, 'i', 'n', 'd', 'e', 'x']),
        relevant_change_spec(path, refs_before + seq!['r', 'e', 'f', 's', '/'] + refs_after),
        !contains_spec(path, seq!['.', 'g', 'i', 't']) ==> relevant_change_spec(path, refs_before),
{
    reveal_strlit(".git");
    reveal_strlit(".git\\HEAD");
    reveal_strlit(".git/HEAD");
    reveal_strlit(".git\\index");
    reveal_strlit(".git/index");
    reveal_strlit("refs/");
    let r = refs_before + seq!['r', 'e', 'f', 's', '/'] + refs_after;
    let i = refs_before.len() as int;
    assert(r.subrange(i, i + 5) =~= "refs/"@);
    assert(seq!['.', 'g', 'i', 't'] =~= ".git"@);
    if sep == '/' {
        assert(seq!['.', 'g', 'i', 't', sep, 'H', 'E', 'A', 'D'] =~= ".git/HEAD"@);
        assert(seq!['.', 'g', 'i', 't', sep, 'i', 'n', 'd', 'e', 'x'] =~= ".git/index"@);
    } else {
        assert(seq!['.', 'g', 'i', 't', sep, 'H', 'E', 'A', 'D'] =~= ".git\\HEAD"@);
        assert(seq!['.', 'g', 'i', 't', sep, 'i', 'n', 'd', 'e', 'x'] =~= ".git\\index"@);
    }
}

/// What a request to watch a repository leads to.
#[derive(Debug)]
pub enum WatchDecision {
    /// It is watched already: nothing to do.
    AlreadyWatching,
    /// It has no `.git` directory.
    NotARepository(String),
    /// Start watching it.
    Start,
}

/// Decides a request to watch a repository, given the repositories watched and whether
/// the repository has a `.git` directory.
pub fn watch_decision(watched: &Vec<String>, repo_path: &str, has_git_dir: bool) -> (r: WatchDecision)
    ensures
        crate::text::string_views(watched@).contains(repo_path@) ==> r is AlreadyWatching,
        !crate::text::string_views(watched@).contains(repo_path@) && !has_git_dir ==> (r matches WatchDecision::NotARepository(e)
            && e@ == "Not a git repository: "@ + repo_path@),
        !crate::text::string_views(watched@).contains(repo_path@) && has_git_dir ==> r is Start,
{
    let ghost sv = crate::text::string_views(watched@);
    let mut i: usize = 0;
    while i < watched.len()
        invariant
            sv == crate::text::string_views(watched@),
            i <= watched@.len(),
            forall|j: int| 0 <= j < i ==> sv[j] != repo_path@,
        decreases watched@.len() - i,
    {
        assert(sv[i as int] == watched@[i as int]@);
        if str_eq(watched[i].as_str(), repo_path) {
            assert(sv.contains(repo_path@));
            return WatchDecision::AlreadyWatching;
        }
        i = i + 1;
    }
    if !has_git_dir {
        return WatchDecision::NotARepository(crate::startup::prefixed("Not a git repository: ", repo_path));
    }
    WatchDecision::Start
}

/// The watched set after a request to watch `p`: unchanged when `p` is already watched or
/// is not a repository, else `p` added at the end.
pub open spec fn watch_next(w: Seq<Seq<char>>, p: Seq<char>, has_git_dir: bool) -> Seq<Seq<char>> {
    if w.contains(p) || !has_git_dir {
        w
    } else {
        w.push(p)
    }
}

/// No path occurs twice.
pub open spec fn watched_once(w: Seq<Seq<char>>) -> bool {
    forall|i: int, j: int| 0 <= i < j < w.len() ==> w[i] != w[j]
}

/// The repositories being watched, each once, in the order they were first watched.
pub struct WatchList {
    paths: Vec<String>,
}

impl WatchList {
    #[verifier::type_invariant]
    spec fn inv(&self) -> bool {
        watched_once(crate::text::string_views(self.paths@))
    }

    /// The watched paths.
    pub closed spec fn view(&self) -> Seq<Seq<char>> {
        crate::text::string_views(self.paths@)
    }

    /// Nothing watched.
    pub fn new() -> (w: Self)
        ensures
            w.view() == Seq::<Seq<char>>::empty(),
            watched_once(w.view()),
    {
        let w = WatchList { paths: Vec::new() };
        assert(w.view() =~= Seq::<Seq<char>>::empty());
        w
    }

    /// A request to watch `repo_path` (see `watch_decision`): a path already watched is left
    /// as it is, a directory without `.git` is refused, and otherwise the path is added.
    pub fn watch(&mut self, repo_path: &str, has_git_dir: bool) -> (r: WatchDecision)
        ensures
            old(self).view().contains(repo_path@) ==> r is AlreadyWatching,
            !old(self).view().contains(repo_path@) && !has_git_dir ==> (r matches WatchDecision::NotARepository(e)
                && e@ == "Not a git repository: "@ + repo_path@),
            !old(self).view().contains(repo_path@) && has_git_dir ==> r is Start,
            final(self).view() == watch_next(old(self).view(), repo_path@, has_git_dir),
            watched_once(final(self).view()),
    {
        proof {
            use_type_invariant(&*self);
        }
        let d = watch_decision(&self.paths, repo_path, has_git_dir);
        if let WatchDecision::Start = d {
            let ghost before = self.view();
            let mut paths: Vec<String> = Vec::new();
            std::mem::swap(&mut paths, &mut self.paths);
            paths.push(repo_path.to_owned());
            assert(crate::text::string_views(paths@) =~= before.push(repo_path@));
            self.paths = paths;
        }
        d
    }

    /// Stops watching `repo_path`: its place in the list, if it was watched.
    pub fn unwatch(&mut self, repo_path: &str) -> (r: Option<usize>)
        ensures
            match r {
                Some(i) => i < old(self).view().len() && old(self).view()[i as int] == repo_path@ && final(self).view()
                    == old(self).view().remove(i as int),
                None => !old(self).view().contains(repo_path@) && final(self).view() == old(self).view(),
            },
            watched_once(final(self).view()),
    {
        proof {
            use_type_invariant(&*self);
        }
        let ghost before = self.view();
        let mut i: usize = 0;
        while i < self.paths.len()
            invariant
                before == crate::text::string_views(self.paths@),
                before == old(self).view(),
                watched_once(before),
                i <= self.paths@.len(),
                forall|j: int| 0 <= j < i ==> before[j] != repo_path@,
            decreases self.paths@.len() - i,
        {
            assert(before[i as int] == self.paths@[i as int]@);
            if str_eq(self.paths[i].as_str(), repo_path) {
                let mut paths: Vec<String> = Vec::new();
                std::mem::swap(&mut paths, &mut self.paths);
                paths.remove(i);
                assert(crate::text::string_views(paths@) =~= before.remove(i as int));
                proof {
                    assert forall|a: int, b: int| 0 <= a < b < crate::text::string_views(paths@).len() implies
                        crate::text::string_views(paths@)[a] != crate::text::string_views(paths@)[b] by {
                        let a0 = if a < i { a } else { a + 1 };
                        let b0 = if b < i { b } else { b + 1 };
                        assert(before[a0] != before[b0]);
                    }
                }
                self.paths = paths;
                return Some(i);
            }
            i = i + 1;
        }
        None
    }

    /// Stops watching every repository.
    pub fn clear(&mut self)
        ensures
            final(self).view() == Seq::<Seq<char>>::empty(),
    {
        self.paths = Vec::new();
        assert(self.view() =~= Seq::<Seq<char>>::empty());
    }
}

/// A repository is watched at most once, and asking again to watch one already watched
/// changes nothing.
pub proof fn law_watched_at_most_once(w: Seq<Seq<char>>, p: Seq<char>, has_git_dir: bool, again: bool)
    requires
        watched_once(w),
    ensures
        watched_once(watch_next(w, p, has_git_dir)),
        watch_next(w, p, has_git_dir).contains(p) ==> watch_next(watch_next(w, p, has_git_dir), p, again) == watch_next(
            w,
            p,
            has_git_dir,
        ),
{
    let n = watch_next(w, p, has_git_dir);
    if !(w.contains(p) || !has_git_dir) {
        assert forall|i: int, j: int| 0 <= i < j < n.len() implies n[i] != n[j] by {
            if j == w.len() {
                assert(n[i] == w[i]);
            }
        }
    }
}

} // verus!
