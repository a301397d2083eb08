//! Git status, branch, log and submodule data, and the parsers that read it from
//! the output of the `git` command line.
use crate::text::{
    chars_of, contains_spec, find_char, first_index_of, has_prefix, lemma_split_nonempty, lines_range, lines_spec,
    seq_contains, seqs, string_views, split_range, split_spec, string_of, string_of_range, trim, trim_bounds,
    words_range, words_spec, decimal, push_decimal, push_all, push_str_chars,
};
use vstd::prelude::*;
use vstd::utf8::{decode_utf8, valid_utf8};

verus! {

/// One changed file as the status panel shows it.
#[derive(Debug)]
pub struct GitFileEntry {
    pub path: String,
    pub status_code: String,
    pub staged: bool,
}

impl View for GitFileEntry {
    type V = (Seq<char>, Seq<char>, bool);

    open spec fn view(&self) -> (Seq<char>, Seq<char>, bool) {
        (self.path@, self.status_code@, self.staged)
    }
}

/// The status of a repository.
#[derive(Debug)]
pub struct GitStatus {
    pub repo_root: String,
    pub branch: String,
    pub has_head: bool,
    pub files: Vec<GitFileEntry>,
}

/// The diff of one file.
#[derive(Debug)]
pub struct GitDiff {
    pub file_path: String,
    pub diff: String,
    pub staged: bool,
}

/// The views of a sequence of file entries.
pub open spec fn entry_views(v: Seq<GitFileEntry>) -> Seq<(Seq<char>, Seq<char>, bool)> {
    v.map_values(|e: GitFileEntry| e@)
}

/// The text after the `k`-th space of `s`, if `s` has `k` spaces.
pub open spec fn after_spaces(s: Seq<char>, k: nat) -> Option<Seq<char>>
    decreases k,
{
    if k == 0 {
        Some(s)
    } else {
        match first_index_of(s, ' ') {
            Some(i) => after_spaces(s.subrange(i + 1, s.len() as int), (k - 1) as nat),
            None => None,
        }
    }
}

/// `s` up to its first `c`, or all of `s` when it has none.
pub open spec fn up_to(s: Seq<char>, c: char) -> Seq<char> {
    match first_index_of(s, c) {
        Some(i) => s.subrange(0, i),
        None => s,
    }
}

/// A line that begins with `1 ` or `2 `.
pub open spec fn is_tracked_line(l: Seq<char>) -> bool {
    has_prefix(l, seq!['1', ' ']) || has_prefix(l, seq!['2', ' '])
}

/// The `XY` field of a tracked-file line: its second space-separated field.
pub open spec fn xy_field(l: Seq<char>) -> Seq<char> {
    match after_spaces(l, 1) {
        Some(rest) => up_to(rest, ' '),
        None => Seq::empty(),
    }
}

/// The path of a tracked-file line: for an ordinary entry (`1 XY sub mH mI mW hH hI path`)
/// the text after the 8th space; for a rename or copy
/// (`2 XY sub mH mI mW hH hI Xscore path<tab>origPath`) the text after the 9th space, up to
/// the tab. `None` when the line has too few fields.
pub open spec fn tracked_path(l: Seq<char>) -> Option<Seq<char>> {
    if has_prefix(l, seq!['2', ' ']) {
        match after_spaces(l, 9) {
            Some(p) => Some(up_to(p, '\t')),
            None => None,
        }
    } else {
        after_spaces(l, 8)
    }
}

/// The entries one line of `git status --porcelain=v2` output yields: `? path` an
/// untracked entry (none for a directory, ending in `/`); a tracked-file line a staged
/// entry for its index letter `X` and an unstaged one for its work-tree letter `Y`, each
/// unless that letter is `.`; any other line, or a tracked-file line whose `XY` field is
/// not two letters or which lacks its path, none.
pub open spec fn status_line_entries(l: Seq<char>) -> Seq<(Seq<char>, Seq<char>, bool)> {
    if l.len() == 0 {
        Seq::empty()
    } else if has_prefix(l, seq!['?', ' ']) {
        let path = l.subrange(2, l.len() as int);
        if path.len() > 0 && path.last() == '/' {
            Seq::empty()
        } else {
            seq![(path, seq!['?'], false)]
        }
    } else if is_tracked_line(l) && xy_field(l).len() == 2 && tracked_path(l) is Some {
        let x = xy_field(l)[0];
        let y = xy_field(l)[1];
        let path = tracked_path(l)->0;
        let staged: Seq<(Seq<char>, Seq<char>, bool)> = if x != '.' {
            seq![(path, seq![x], true)]
        } else {
            Seq::empty()
        };
        let unstaged: Seq<(Seq<char>, Seq<char>, bool)> = if y != '.' {
            seq![(path, seq![y], false)]
        } else {
            Seq::empty()
        };
        staged + unstaged
    } else {
        Seq::empty()
    }
}

/// The concatenation of the entries of each line, in order.
pub open spec fn concat_entries(ls: Seq<Seq<char>>) -> Seq<(Seq<char>, Seq<char>, bool)>
    decreases ls.len(),
{
    if ls.len() == 0 {
        Seq::empty()
    } else {
        concat_entries(ls.drop_last()) + status_line_entries(ls.last())
    }
}

/// The entries of a whole `git status --porcelain=v2` text.
pub open spec fn status_entries(text: Seq<char>) -> Seq<(Seq<char>, Seq<char>, bool)> {
    concat_entries(lines_spec(text))
}

fn string_of_char(c: char) -> (s: String)
    ensures
        s@ == seq![c],
{
    let mut s = String::new();
    s.push(c);
    s
}

/// Where the text after the `k`-th space of `v[lo..]` starts, if it has `k` spaces.
fn skip_spaces(v: &Vec<char>, lo: usize, k: usize) -> (r: Option<usize>)
    requires
        lo <= v@.len(),
    ensures
        match r {
            Some(i) => lo <= i <= v@.len() && after_spaces(v@.subrange(lo as int, v@.len() as int), k as nat) == Some(
                v@.subrange(i as int, v@.len() as int),
            ),
            None => after_spaces(v@.subrange(lo as int, v@.len() as int), k as nat) is None,
        },
{
    let n = v.len();
    let mut pos = lo;
    let mut j: usize = 0;
    while j < k
        invariant
            lo <= pos <= n == v@.len(),
            j <= k,
            after_spaces(v@.subrange(lo as int, n as int), k as nat) == after_spaces(
                v@.subrange(pos as int, n as int),
                (k - j) as nat,
            ),
        decreases k - j,
    {
        let ghost cur = v@.subrange(pos as int, n as int);
        match find_char(v, pos, n, ' ') {
            Some(i) => {
                assert(cur.subrange(i + 1, cur.len() as int) =~= v@.subrange(pos + i + 1, n as int));
                pos = pos + i + 1;
                j = j + 1;
            },
            None => {
                return None;
            },
        }
    }
    Some(pos)
}

/// The bound of `v[lo..]` up to its first `c`, or the end.
fn up_to_end(v: &Vec<char>, lo: usize, c: char) -> (e: usize)
    requires
        lo <= v@.len(),
    ensures
        lo <= e <= v@.len(),
        v@.subrange(lo as int, e as int) == up_to(v@.subrange(lo as int, v@.len() as int), c),
{
    let ghost s = v@.subrange(lo as int, v@.len() as int);
    match find_char(v, lo, v.len(), c) {
        Some(i) => {
            assert(s.subrange(0, i as int) =~= v@.subrange(lo as int, lo + i));
            lo + i
        },
        None => {
            assert(s =~= v@.subrange(lo as int, v@.len() as int));
            v.len()
        },
    }
}

fn status_line(l: &Vec<char>) -> (r: Vec<GitFileEntry>)
    ensures
        entry_views(r@) == status_line_entries(l@),
{
    let n = l.len();
    let mut out: Vec<GitFileEntry> = Vec::new();
    if n == 0 {
        return out;
    }
    proof {
        if n >= 2 {
            assert(has_prefix(l@, seq!['?', ' ']) == (l@[0] == '?' && l@[1] == ' ')) by {
                if l@[0] == '?' && l@[1] == ' ' {
                    assert(l@.subrange(0, 2) =~= seq!['?', ' ']);
                }
            }
            assert(has_prefix(l@, seq!['1', ' ']) == (l@[0] == '1' && l@[1] == ' ')) by {
                if l@[0] == '1' && l@[1] == ' ' {
                    assert(l@.subrange(0, 2) =~= seq!['1', ' ']);
                }
            }
            assert(has_prefix(l@, seq!['2', ' ']) == (l@[0] == '2' && l@[1] == ' ')) by {
                if l@[0] == '2' && l@[1] == ' ' {
                    assert(l@.subrange(0, 2) =~= seq!['2', ' ']);
                }
            }
        }
    }
    if n >= 2 && l[0] == '?' && l[1] == ' ' {
        if l[n - 1] == '/' && n > 2 {
            return out;
        }
        let path = string_of_range(l, 2, n);
        out.push(GitFileEntry { path, status_code: string_of_char('?'), staged: false });
        assert(entry_views(out@) =~= status_line_entries(l@));
        return out;
    }
    let is_file_line = n >= 2 && (l[0] == '1' || l[0] == '2') && l[1] == ' ';
    if !is_file_line {
        assert(entry_views(out@) =~= status_line_entries(l@));
        return out;
    }
    assert(l@.subrange(0, n as int) =~= l@);
    let xy_start = match skip_spaces(l, 0, 1) {
        Some(i) => i,
        None => {
            assert(entry_views(out@) =~= status_line_entries(l@));
            return out;
        },
    };
    let xy_end = up_to_end(l, xy_start, ' ');
    assert(l@.subrange(xy_start as int, xy_end as int) == xy_field(l@));
    if xy_end - xy_start != 2 {
        assert(entry_views(out@) =~= status_line_entries(l@));
        return out;
    }
    let x = l[xy_start];
    let y = l[xy_start + 1];
    assert(xy_field(l@)[0] == x && xy_field(l@)[1] == y);
    let renamed = l[0] == '2';
    let skip: usize = if renamed { 9 } else { 8 };
    let p_start = match skip_spaces(l, 0, skip) {
        Some(i) => i,
        None => {
            assert(tracked_path(l@) is None);
            assert(entry_views(out@) =~= status_line_entries(l@));
            return out;
        },
    };
    let p_end = if renamed { up_to_end(l, p_start, '\t') } else { n };
    let path = string_of_range(l, p_start, p_end);
    assert(tracked_path(l@) == Some(path@));
    if x != '.' {
        let p2 = string_of_range(l, p_start, p_end);
        out.push(GitFileEntry { path: p2, status_code: string_of_char(x), staged: true });
    }
    if y != '.' {
        out.push(GitFileEntry { path, status_code: string_of_char(y), staged: false });
    }
    assert(entry_views(out@) =~= status_line_entries(l@));
    out
}

/// Parses `git status --porcelain=v2` output into file entries, line by line: `? path`
/// gives an untracked entry (directories, ending in `/`, are skipped), `! ` lines are
/// ignored, and a line `1 ...` or `2 ...` gives a staged entry for its first status
/// letter and an unstaged one for its second, each unless that letter is `.`.
/// The letters are the line's `XY` field and the path is read as `status_line_entries`
/// says; every text is accepted.
pub fn parse_status_porcelain(text: &str) -> (r: Vec<GitFileEntry>)
    ensures
        entry_views(r@) == status_entries(text@),
{
    let v = chars_of(text);
    assert(v@.subrange(0, v@.len() as int) =~= v@);
    let ls = lines_range(&v, 0, v.len());
    let mut out: Vec<GitFileEntry> = Vec::new();
    let mut i: usize = 0;
    while i < ls.len()
        invariant
            seqs(ls@) == lines_spec(text@),
            i <= ls@.len(),
            entry_views(out@) == concat_entries(lines_spec(text@).take(i as int)),
        decreases ls@.len() - i,
    {
        assert(seqs(ls@)[i as int] == ls@[i as int]@);
        let es = status_line(&ls[i]);
        let ghost before = entry_views(out@);
        let mut k: usize = 0;
        let mut es = es;
        let ghost es_views = entry_views(es@);
        let mut moved: Vec<GitFileEntry> = Vec::new();
        while es.len() > 0
            invariant
                entry_views(moved@) + entry_views(es@).reverse() == es_views.reverse(),
            decreases es@.len(),
        {
            let e = es.pop().unwrap();
            assert(entry_views(moved@.push(e)) + entry_views(es@).reverse() =~= es_views.reverse()) by {
                assert(entry_views(es@.push(e)).reverse() =~= seq![e@] + entry_views(es@).reverse());
            }
            moved.push(e);
        }
        assert(entry_views(moved@) =~= es_views.reverse());
        while moved.len() > 0
            invariant
                entry_views(out@) + entry_views(moved@).reverse() == before + es_views,
            decreases moved@.len(),
        {
            let e = moved.pop().unwrap();
            assert(entry_views(out@.push(e)) + entry_views(moved@).reverse() =~= before + es_views) by {
                assert(entry_views(moved@.push(e)).reverse() =~= seq![e@] + entry_views(moved@).reverse());
            }
            out.push(e);
        }
        assert(entry_views(out@) =~= before + es_views);
        assert(lines_spec(text@).take(i + 1).drop_last() =~= lines_spec(text@).take(i as int));
        i = i + 1;
    }
    assert(lines_spec(text@).take(ls@.len() as int) =~= lines_spec(text@));
    out
}


/// One branch of the repository.
#[derive(Debug)]
pub struct GitBranch {
    pub name: String,
    pub is_current: bool,
    pub is_remote: bool,
    pub upstream: Option<String>,
}

/// The abstract value of a branch: name, current, remote, upstream.
pub type BranchView = (Seq<char>, bool, bool, Option<Seq<char>>);

impl View for GitBranch {
    type V = BranchView;

    open spec fn view(&self) -> BranchView {
        (
            self.name@,
            self.is_current,
            self.is_remote,
            match self.upstream {
                Some(u) => Some(u@),
                None => None,
            },
        )
    }
}

/// The views of a sequence of branches.
pub open spec fn branch_views(v: Seq<GitBranch>) -> Seq<BranchView> {
    v.map_values(|b: GitBranch| b@)
}

/// `a` orders before `b` in code-point lexicographic order, as `String::cmp` orders them.
pub open spec fn seq_lt(a: Seq<char>, b: Seq<char>) -> bool
    decreases a.len(),
{
    if a.len() == 0 {
        b.len() > 0
    } else if b.len() == 0 {
        false
    } else if a[0] < b[0] {
        true
    } else if a[0] > b[0] {
        false
    } else {
        seq_lt(a.drop_first(), b.drop_first())
    }
}

pub(crate) proof fn lemma_seq_lt_irreflexive(a: Seq<char>)
    ensures
        !seq_lt(a, a),
    decreases a.len(),
{
    if a.len() > 0 {
        lemma_seq_lt_irreflexive(a.drop_first());
    }
}

pub(crate) proof fn lemma_seq_lt_transitive(a: Seq<char>, b: Seq<char>, c: Seq<char>)
    requires
        seq_lt(a, b),
        seq_lt(b, c),
    ensures
        seq_lt(a, c),
    decreases a.len(),
{
    if a.len() > 0 && b.len() > 0 && c.len() > 0 && a[0] == b[0] && b[0] == c[0] {
        lemma_seq_lt_transitive(a.drop_first(), b.drop_first(), c.drop_first());
    }
}

pub(crate) proof fn lemma_seq_lt_total(a: Seq<char>, b: Seq<char>)
    requires
        a != b,
    ensures
        seq_lt(a, b) || seq_lt(b, a),
    decreases a.len(),
{
    if a.len() > 0 && b.len() > 0 && a[0] == b[0] {
        if a.drop_first() == b.drop_first() {
            assert(a =~= seq![a[0]] + a.drop_first());
            assert(b =~= seq![b[0]] + b.drop_first());
        }
        lemma_seq_lt_total(a.drop_first(), b.drop_first());
    } else if a.len() == 0 && b.len() == 0 {
        assert(a =~= b);
    }
}

/// Compares `a` and `b` lexicographically.
pub fn chars_lt(a: &Vec<char>, b: &Vec<char>) -> (r: bool)
    ensures
        r == seq_lt(a@, b@),
{
    let mut i: usize = 0;
    assert(a@.subrange(0, a@.len() as int) =~= a@);
    assert(b@.subrange(0, b@.len() as int) =~= b@);
    while i < a.len() && i < b.len() && a[i] == b[i]
        invariant
            i <= a@.len(),
            i <= b@.len(),
            seq_lt(a@, b@) == seq_lt(a@.subrange(i as int, a@.len() as int), b@.subrange(i as int, b@.len() as int)),
        decreases a@.len() - i,
    {
        proof {
            let x = a@.subrange(i as int, a@.len() as int);
            let y = b@.subrange(i as int, b@.len() as int);
            assert(x.drop_first() =~= a@.subrange(i + 1, a@.len() as int));
            assert(y.drop_first() =~= b@.subrange(i + 1, b@.len() as int));
            assert(x[0] == a@[i as int] && y[0] == b@[i as int]);
        }
        i = i + 1;
    }
    let ghost x = a@.subrange(i as int, a@.len() as int);
    let ghost y = b@.subrange(i as int, b@.len() as int);
    if i == a.len() {
        i < b.len()
    } else if i == b.len() {
        false
    } else {
        assert(x[0] == a@[i as int] && y[0] == b@[i as int]);
        a[i] < b[i]
    }
}

/// `a` orders before `b` in the branch list: local branches before remote ones, then the
/// current branch first, then by name.
pub open spec fn branch_before(a: BranchView, b: BranchView) -> bool {
    if a.2 != b.2 {
        !a.2
    } else if a.1 != b.1 {
        a.1
    } else {
        seq_lt(a.0, b.0)
    }
}

/// `x` inserted into `s` after every element it does not order before.
pub open spec fn insert_branch(s: Seq<BranchView>, x: BranchView) -> Seq<BranchView>
    decreases s.len(),
{
    if s.len() > 0 && branch_before(x, s.last()) {
        insert_branch(s.drop_last(), x).push(s.last())
    } else {
        s.push(x)
    }
}

/// The stable sort of `s` by `branch_before`.
pub open spec fn sort_branches(s: Seq<BranchView>) -> Seq<BranchView>
    decreases s.len(),
{
    if s.len() == 0 {
        s
    } else {
        insert_branch(sort_branches(s.drop_last()), s.last())
    }
}

/// No branch of `s` orders before one that comes earlier in `s`.
pub open spec fn branches_sorted(s: Seq<BranchView>) -> bool {
    forall|i: int, j: int| 0 <= i < j < s.len() ==> !branch_before(#[trigger] s[j], #[trigger] s[i])
}

proof fn lemma_branch_before_asymmetric(a: BranchView, b: BranchView)
    requires
        branch_before(a, b),
    ensures
        !branch_before(b, a),
{
    if a.2 == b.2 && a.1 == b.1 && seq_lt(b.0, a.0) {
        lemma_seq_lt_transitive(a.0, b.0, a.0);
        lemma_seq_lt_irreflexive(a.0);
    }
}

proof fn lemma_not_before_transitive(x: BranchView, y: BranchView, z: BranchView)
    requires
        !branch_before(x, y),
        !branch_before(y, z),
    ensures
        !branch_before(x, z),
{
    if x.2 == z.2 && x.1 == z.1 && seq_lt(x.0, z.0) {
        if x.0 != y.0 {
            lemma_seq_lt_total(x.0, y.0);
        }
        if y.0 != z.0 {
            lemma_seq_lt_total(y.0, z.0);
        }
        if x.0 != y.0 && y.0 != z.0 {
            lemma_seq_lt_transitive(z.0, y.0, x.0);
            lemma_seq_lt_transitive(x.0, z.0, x.0);
            lemma_seq_lt_irreflexive(x.0);
        }
    }
}

proof fn lemma_insert_branch(s: Seq<BranchView>, x: BranchView)
    requires
        branches_sorted(s),
    ensures
        branches_sorted(insert_branch(s, x)),
        insert_branch(s, x).to_multiset() =~= s.to_multiset().insert(x),
    decreases s.len(),
{
    broadcast use vstd::seq_lib::group_to_multiset_ensures;

    if s.len() > 0 && branch_before(x, s.last()) {
        let p = s.drop_last();
        assert(s =~= p.push(s.last()));
        lemma_insert_branch(p, x);
        let r = insert_branch(p, x);
        let t = r.push(s.last());
        assert forall|i: int, j: int| 0 <= i < j < t.len() implies !branch_before(#[trigger] t[j], #[trigger] t[i]) by {
            if j < r.len() {
                assert(t[i] == r[i] && t[j] == r[j]);
            } else {
                assert(t[i] == r[i]);
                assert(r.to_multiset().count(r[i]) > 0);
                if r[i] == x {
                    lemma_branch_before_asymmetric(x, s.last());
                } else {
                    assert(p.to_multiset().count(r[i]) > 0);
                    assert(p.contains(r[i]));
                    let m = choose|m: int| 0 <= m < p.len() && p[m] == r[i];
                    assert(s[m] == p[m]);
                    assert(!branch_before(s[s.len() - 1], s[m]));
                }
            }
        }
    } else {
        let t = s.push(x);
        assert forall|i: int, j: int| 0 <= i < j < t.len() implies !branch_before(#[trigger] t[j], #[trigger] t[i]) by {
            if j < s.len() {
                assert(t[i] == s[i] && t[j] == s[j]);
            } else if i < s.len() - 1 {
                assert(t[i] == s[i]);
                assert(!branch_before(s[s.len() - 1], s[i]));
                lemma_not_before_transitive(x, s[s.len() - 1], s[i]);
            }
        }
    }
}

/// The branch list keeps every branch the lines describe, each as often, and lists them
/// in order: local branches before remote ones, the current branch first among its kind,
/// then by name.
pub proof fn law_branches_sorted(s: Seq<BranchView>)
    ensures
        branches_sorted(sort_branches(s)),
        sort_branches(s).to_multiset() =~= s.to_multiset(),
    decreases s.len(),
{
    broadcast use vstd::seq_lib::group_to_multiset_ensures;

    if s.len() > 0 {
        law_branches_sorted(s.drop_last());
        lemma_insert_branch(sort_branches(s.drop_last()), s.last());
        assert(s =~= s.drop_last().push(s.last()));
    }
}

/// The branch that one line of `for-each-ref` output describes, if it is kept:
/// four tab-separated fields (name, `1` for the current branch, upstream, full ref name),
/// and not a symbolic `…/HEAD` ref.
pub open spec fn branch_of_line(l: Seq<char>) -> Option<BranchView> {
    let parts = split_spec(l, '\t');
    if parts.len() < 4 {
        None
    } else {
        let name = parts[0];
        if name.len() >= 5 && name.subrange(name.len() - 5, name.len() as int) == seq!['/', 'H', 'E', 'A', 'D'] {
            None
        } else {
            Some(
                (
                    name,
                    parts[1] == seq!['1'],
                    has_prefix(parts[3], seq!['r', 'e', 'f', 's', '/', 'r', 'e', 'm', 'o', 't', 'e', 's', '/']),
                    if parts[2].len() == 0 {
                        None
                    } else {
                        Some(parts[2])
                    },
                ),
            )
        }
    }
}

/// The branches the lines describe, in line order.
pub open spec fn branches_of_lines(ls: Seq<Seq<char>>) -> Seq<BranchView>
    decreases ls.len(),
{
    if ls.len() == 0 {
        Seq::empty()
    } else {
        match branch_of_line(ls.last()) {
            Some(b) => branches_of_lines(ls.drop_last()).push(b),
            None => branches_of_lines(ls.drop_last()),
        }
    }
}

/// At most one branch of each kind (local, remote) is marked current.
pub open spec fn one_current_per_kind(bs: Seq<BranchView>) -> bool {
    forall|i: int, j: int|
        0 <= i < bs.len() && 0 <= j < bs.len() && i != j && bs[i].1 && bs[j].1 ==> bs[i].2 != bs[j].2
}

fn string_of_vec(v: &Vec<char>) -> (s: String)
    ensures
        s@ == v@,
{
    string_of(v.as_slice())
}

fn branch_from_line(l: &Vec<char>) -> (r: Option<GitBranch>)
    ensures
        match r {
            Some(b) => branch_of_line(l@) == Some(b@),
            None => branch_of_line(l@) is None,
        },
{
    let parts = split_range(l, 0, l.len(), '\t');
    assert(l@.subrange(0, l@.len() as int) =~= l@);
    if parts.len() < 4 {
        return None;
    }
    let ghost ps = split_spec(l@, '\t');
    assert(seqs(parts@)[0] == parts@[0]@ && seqs(parts@)[1] == parts@[1]@);
    assert(seqs(parts@)[2] == parts@[2]@ && seqs(parts@)[3] == parts@[3]@);
    let name = &parts[0];
    let nl = name.len();
    let head: [char; 5] = ['/', 'H', 'E', 'A', 'D'];
    if nl >= 5 && crate::text::range_eq(name, nl - 5, nl, &head) {
        assert(head@ =~= seq!['/', 'H', 'E', 'A', 'D']);
        return None;
    }
    assert(head@ =~= seq!['/', 'H', 'E', 'A', 'D']);
    let one: [char; 1] = ['1'];
    let is_current = crate::text::range_eq(&parts[1], 0, parts[1].len(), &one);
    assert(parts@[1]@.subrange(0, parts@[1]@.len() as int) =~= parts@[1]@);
    assert(one@ =~= seq!['1']);
    let prefix: [char; 13] = ['r', 'e', 'f', 's', '/', 'r', 'e', 'm', 'o', 't', 'e', 's', '/'];
    let is_remote = crate::text::range_starts_with(&parts[3], 0, parts[3].len(), &prefix);
    assert(parts@[3]@.subrange(0, parts@[3]@.len() as int) =~= parts@[3]@);
    assert(prefix@ =~= seq!['r', 'e', 'f', 's', '/', 'r', 'e', 'm', 'o', 't', 'e', 's', '/']);
    let upstream = if parts[2].len() == 0 {
        None
    } else {
        Some(string_of_vec(&parts[2]))
    };
    Some(GitBranch { name: string_of_vec(name), is_current, is_remote, upstream })
}

/// Parses the output of `git for-each-ref` in the format the branch list asks for
/// (`name<TAB>current<TAB>upstream<TAB>refname` per line) and orders it: local branches
/// before remote ones, the current branch first within its kind, then by name.
pub fn list_branches(output: &str) -> (r: Vec<GitBranch>)
    requires
        one_current_per_kind(branches_of_lines(lines_spec(output@))),
    ensures
        branch_views(r@) == sort_branches(branches_of_lines(lines_spec(output@))),
{
    let v = chars_of(output);
    assert(v@.subrange(0, v@.len() as int) =~= v@);
    let ls = lines_range(&v, 0, v.len());
    let ghost all = lines_spec(output@);
    let mut out: Vec<GitBranch> = Vec::new();
    let mut i: usize = 0;
    while i < ls.len()
        invariant
            seqs(ls@) == all,
            i <= ls@.len(),
            branch_views(out@) == sort_branches(branches_of_lines(all.take(i as int))),
        decreases ls@.len() - i,
    {
        assert(seqs(ls@)[i as int] == ls@[i as int]@);
        assert(all.take(i + 1).drop_last() =~= all.take(i as int));
        assert(all.take(i + 1).last() == all[i as int]);
        match branch_from_line(&ls[i]) {
            Some(b) => {
                let ghost x = b@;
                let ghost sorted = branch_views(out@);
                out.push(b);
                let mut k = out.len() - 1;
                assert(branch_views(out@) =~= sorted.push(x));
                assert(sorted.subrange(0, k as int) =~= sorted);
                assert(sorted.subrange(k as int, sorted.len() as int) =~= Seq::<BranchView>::empty());
                assert(insert_branch(sorted, x) =~= insert_branch(sorted.subrange(0, k as int), x) + sorted.subrange(k as int, sorted.len() as int));
                while k > 0 && branch_before_exec(&out[k], &out[k - 1])
                    invariant
                        0 <= k < out@.len(),
                        out@.len() == sorted.len() + 1,
                        out@[k as int]@ == x,
                        branch_views(out@).subrange(0, k as int) == sorted.subrange(0, k as int),
                        branch_views(out@).subrange(k + 1, out@.len() as int) == sorted.subrange(k as int, sorted.len() as int),
                        insert_branch(sorted, x) == insert_branch(sorted.subrange(0, k as int), x) + sorted.subrange(k as int, sorted.len() as int),
                    decreases k,
                {
                    proof {
                        let pre = sorted.subrange(0, k as int);
                        assert(pre.last() == sorted[k - 1]);
                        assert(branch_views(out@)[k - 1] == sorted[k - 1]);
                        assert(pre.drop_last() =~= sorted.subrange(0, k - 1));
                        assert(insert_branch(pre, x) == insert_branch(pre.drop_last(), x).push(pre.last()));
                        assert(sorted.subrange(k - 1, sorted.len() as int) =~= seq![sorted[k - 1]] + sorted.subrange(k as int, sorted.len() as int));
                        assert(insert_branch(sorted, x) =~= insert_branch(sorted.subrange(0, k - 1), x) + sorted.subrange(k - 1, sorted.len() as int));
                    }
                    let moving = out.remove(k);
                    out.insert(k - 1, moving);
                    proof {
                        assert(branch_views(out@).subrange(0, k - 1) =~= sorted.subrange(0, k - 1));
                        assert(branch_views(out@).subrange(k as int, out@.len() as int) =~= sorted.subrange(k - 1, sorted.len() as int));
                    }
                    k = k - 1;
                }
                proof {
                    let pre = sorted.subrange(0, k as int);
                    if k > 0 {
                        assert(pre.last() == sorted[k - 1]);
                        assert(branch_views(out@)[k - 1] == sorted[k - 1]);
                    }
                    assert(insert_branch(pre, x) == pre.push(x));
                    assert(branch_views(out@) =~= pre.push(x) + sorted.subrange(k as int, sorted.len() as int));
                    assert(branch_of_line(all[i as int]) == Some(x));
                    assert(branches_of_lines(all.take(i + 1)) == branches_of_lines(all.take(i as int)).push(x));
                    let bl = branches_of_lines(all.take(i as int));
                    assert(bl.push(x).drop_last() =~= bl);
                    assert(sort_branches(bl.push(x)) == insert_branch(sort_branches(bl), x));
                }
            },
            None => {
                assert(branch_of_line(all[i as int]) is None);
                assert(branches_of_lines(all.take(i + 1)) == branches_of_lines(all.take(i as int)));
            },
        }
        i = i + 1;
    }
    assert(all.take(ls@.len() as int) =~= all);
    out
}

fn branch_before_exec(a: &GitBranch, b: &GitBranch) -> (r: bool)
    ensures
        r == branch_before(a@, b@),
{
    if a.is_remote != b.is_remote {
        !a.is_remote
    } else if a.is_current != b.is_current {
        a.is_current
    } else {
        let x = chars_of(a.name.as_str());
        let y = chars_of(b.name.as_str());
        chars_lt(&x, &y)
    }
}


/// What `String::from_utf8_lossy` makes of bytes that are not valid UTF-8.
pub uninterp spec fn spec_utf8_lossy(b: Seq<u8>) -> Seq<char>;

/// Calls `String::from_utf8_lossy`: valid UTF-8 is decoded as it stands; the
/// replacement of invalid sequences by U+FFFD is named by `spec_utf8_lossy` and not
/// written out here.
#[verifier::external_body]
pub(crate) fn utf8_lossy(b: &[u8]) -> (s: String)
    ensures
        s@ == spec_utf8_lossy(b@),
        valid_utf8(b@) ==> s@ == decode_utf8(b@),
{
    String::from_utf8_lossy(b).into_owned()
}

/// Calls `std::str::from_utf8`, giving the empty string when `b` is not valid UTF-8.
#[verifier::external_body]
pub(crate) fn utf8_or_empty(b: &[u8]) -> (s: String)
    ensures
        valid_utf8(b@) ==> s@ == decode_utf8(b@),
        !valid_utf8(b@) ==> s@ == Seq::<char>::empty(),
{
    std::str::from_utf8(b).unwrap_or("").to_string()
}

/// The text of command output: its bytes decoded, invalid UTF-8 replaced.
pub open spec fn lossy(b: Seq<u8>) -> Seq<char> {
    spec_utf8_lossy(b)
}

/// What a finished `git` process gave back.
pub struct CommandOutput {
    pub success: bool,
    pub stdout: Vec<u8>,
    pub stderr: Vec<u8>,
}

/// The standard output of a successful run, or its standard error as the message.
pub fn run_git(out: &CommandOutput) -> (r: Result<String, String>)
    ensures
        out.success ==> (r matches Ok(s) && s@ == lossy(out.stdout@)),
        !out.success ==> (r matches Err(e) && e@ == lossy(out.stderr@)),
{
    if out.success {
        Ok(utf8_lossy(out.stdout.as_slice()))
    } else {
        Err(utf8_lossy(out.stderr.as_slice()))
    }
}

/// The trimmed standard output of a successful run, or its standard error as the message:
/// what commit, pull, push, checkout and fetch report.
pub fn trimmed_output(out: &CommandOutput) -> (r: Result<String, String>)
    ensures
        out.success ==> (r matches Ok(s) && s@ == trim(lossy(out.stdout@))),
        !out.success ==> (r matches Err(e) && e@ == lossy(out.stderr@)),
{
    match run_git(out) {
        Ok(s) => Ok(crate::text::trim_str(s.as_str())),
        Err(e) => Err(e),
    }
}

/// The result of switching branches.
pub fn checkout_branch(out: &CommandOutput) -> (r: Result<String, String>)
    ensures
        out.success ==> (r matches Ok(s) && s@ == trim(lossy(out.stdout@))),
        !out.success ==> (r matches Err(e) && e@ == lossy(out.stderr@)),
{
    trimmed_output(out)
}

/// The result of fetching from all remotes.
pub fn git_fetch(out: &CommandOutput) -> (r: Result<String, String>)
    ensures
        out.success ==> (r matches Ok(s) && s@ == trim(lossy(out.stdout@))),
        !out.success ==> (r matches Err(e) && e@ == lossy(out.stderr@)),
{
    trimmed_output(out)
}

/// Nothing on success, the standard error as the message otherwise: what staging,
/// unstaging, untracking and discarding report.
pub fn unit_output(out: &CommandOutput) -> (r: Result<(), String>)
    ensures
        out.success ==> r is Ok,
        !out.success ==> (r matches Err(e) && e@ == lossy(out.stderr@)),
{
    if out.success {
        Ok(())
    } else {
        Err(utf8_lossy(out.stderr.as_slice()))
    }
}

fn concat_str(a: &str, b: &str) -> (r: String)
    ensures
        r@ == a@ + b@,
{
    let mut v = chars_of(a);
    let w = chars_of(b);
    let mut i: usize = 0;
    let ghost a0 = v@;
    while i < w.len()
        invariant
            i <= w@.len(),
            v@ == a0 + w@.subrange(0, i as int),
        decreases w@.len() - i,
    {
        v.push(w[i]);
        assert(v@ =~= a0 + w@.subrange(0, i + 1));
        i = i + 1;
    }
    assert(w@.subrange(0, w@.len() as int) =~= w@);
    string_of(v.as_slice())
}

/// One step of staging everything: nothing on success, else the step's label, `failed: `
/// and the standard error.
pub fn stage_all_step(label: &str, out: &CommandOutput) -> (r: Result<(), String>)
    ensures
        out.success ==> r is Ok,
        !out.success ==> (r matches Err(e) && e@ == label@ + " failed: "@ + lossy(out.stderr@)),
{
    if out.success {
        Ok(())
    } else {
        let head = concat_str(label, " failed: ");
        let err = utf8_lossy(out.stderr.as_slice());
        Err(concat_str(head.as_str(), err.as_str()))
    }
}

/// The repository root `git rev-parse --show-toplevel` printed, or why there is none.
pub fn resolve_repo_root(out: &CommandOutput) -> (r: Result<String, String>)
    ensures
        out.success ==> (r matches Ok(s) && s@ == trim(lossy(out.stdout@))),
        !out.success ==> (r matches Err(e) && e@ == "Not a git repository: "@ + lossy(out.stderr@)),
{
    if out.success {
        let s = utf8_lossy(out.stdout.as_slice());
        Ok(crate::text::trim_str(s.as_str()))
    } else {
        let err = utf8_lossy(out.stderr.as_slice());
        Err(concat_str("Not a git repository: ", err.as_str()))
    }
}

/// The branch name to show: the trimmed output of `git symbolic-ref --short HEAD` when it
/// succeeded, and `DETACHED` for a detached HEAD (the query failed or could not be run,
/// `None`).
pub fn branch_name(symbolic: &Option<CommandOutput>) -> (r: String)
    ensures
        (symbolic matches Some(o) && o.success) ==> r@ == trim(lossy(symbolic->0.stdout@)),
        !(symbolic matches Some(o) && o.success) ==> r@ == "DETACHED"@,
{
    if let Some(o) = symbolic {
        if o.success {
            let s = utf8_lossy(o.stdout.as_slice());
            return crate::text::trim_str(s.as_str());
        }
    }
    let d = chars_of("DETACHED");
    string_of(d.as_slice())
}

/// Builds the status of a repository from the output of `git status --porcelain=v2`; an
/// unsuccessful run gives `git status failed: ` and its standard error.
pub fn get_status(repo_root: String, status: &CommandOutput, branch: String, has_head: bool) -> (r: Result<
    GitStatus,
    String,
>)
    ensures
        !status.success ==> (r matches Err(e) && e@ == "git status failed: "@ + lossy(status.stderr@)),
        status.success ==> (r matches Ok(st) && st.repo_root == repo_root && st.branch == branch && st.has_head
            == has_head && entry_views(st.files@) == status_entries(lossy(status.stdout@))),
{
    if !status.success {
        let err = utf8_lossy(status.stderr.as_slice());
        return Err(concat_str("git status failed: ", err.as_str()));
    }
    let text = utf8_lossy(status.stdout.as_slice());
    let files = parse_status_porcelain(text.as_str());
    Ok(GitStatus { repo_root, branch, has_head, files })
}

/// The words of a command line, for running `git` with them; an empty line is refused.
pub fn exec_git_command(command: &str) -> (r: Result<Vec<String>, String>)
    ensures
        words_spec(command@).len() == 0 ==> (r matches Err(e) && e@ == "Empty command"@),
        words_spec(command@).len() > 0 ==> (r matches Ok(ws) && string_views(ws@) == words_spec(command@)),
{
    let v = chars_of(command);
    assert(v@.subrange(0, v@.len() as int) =~= v@);
    let ws = words_range(&v, 0, v.len());
    if ws.len() == 0 {
        let e = chars_of("Empty command");
        return Err(string_of(e.as_slice()));
    }
    let mut out: Vec<String> = Vec::new();
    let mut i: usize = 0;
    while i < ws.len()
        invariant
            i <= ws@.len(),
            string_views(out@) == seqs(ws@).take(i as int),
        decreases ws@.len() - i,
    {
        let w = string_of(ws[i].as_slice());
        assert(seqs(ws@)[i as int] == ws@[i as int]@);
        let ghost prev = string_views(out@);
        out.push(w);
        assert(string_views(out@) =~= prev.push(w@));
        assert(string_views(out@) =~= seqs(ws@).take(i + 1));
        i = i + 1;
    }
    assert(seqs(ws@).take(ws@.len() as int) =~= seqs(ws@));
    Ok(out)
}

/// The combined staged changes handed to the commit-message generator: the `--stat`
/// summary, a line break, and the full diff.
pub fn get_staged_diff_summary(stat: &[u8], detail: &[u8]) -> (r: String)
    ensures
        r@ == lossy(stat@) + "\n"@ + lossy(detail@),
{
    let a = utf8_lossy(stat);
    let b = utf8_lossy(detail);
    let head = concat_str(a.as_str(), "\n");
    concat_str(head.as_str(), b.as_str())
}


/// The pieces of `s` between the occurrences of the byte `sep`.
pub open spec fn split_bytes_spec(s: Seq<u8>, sep: u8) -> Seq<Seq<u8>>
    decreases s.len(),
{
    if s.len() == 0 {
        seq![Seq::<u8>::empty()]
    } else {
        let p = split_bytes_spec(s.drop_last(), sep);
        if s.last() == sep {
            p.push(Seq::<u8>::empty())
        } else {
            p.update(p.len() - 1, p.last().push(s.last()))
        }
    }
}

proof fn lemma_split_bytes_nonempty(s: Seq<u8>, sep: u8)
    ensures
        split_bytes_spec(s, sep).len() >= 1,
    decreases s.len(),
{
    if s.len() > 0 {
        lemma_split_bytes_nonempty(s.drop_last(), sep);
    }
}

/// The views of a sequence of byte vectors.
pub open spec fn byte_seqs(v: Seq<Vec<u8>>) -> Seq<Seq<u8>> {
    v.map_values(|x: Vec<u8>| x@)
}

fn split_bytes(v: &[u8], sep: u8) -> (r: Vec<Vec<u8>>)
    ensures
        byte_seqs(r@) == split_bytes_spec(v@, sep),
{
    let mut pieces: Vec<Vec<u8>> = Vec::new();
    let mut cur: Vec<u8> = Vec::new();
    let mut j: usize = 0;
    assert(v@.subrange(0, 0) =~= Seq::<u8>::empty());
    assert(byte_seqs(pieces@).push(cur@) =~= seq![Seq::<u8>::empty()]);
    while j < v.len()
        invariant
            j <= v@.len(),
            byte_seqs(pieces@).push(cur@) == split_bytes_spec(v@.subrange(0, j as int), sep),
        decreases v@.len() - j,
    {
        let ghost prev = v@.subrange(0, j as int);
        let ghost next = v@.subrange(0, j + 1);
        assert(next.drop_last() =~= prev);
        assert(next.last() == v@[j as int]);
        proof {
            lemma_split_bytes_nonempty(prev, sep);
        }
        let c = v[j];
        if c == sep {
            let done = cur;
            pieces.push(done);
            cur = Vec::new();
            assert(byte_seqs(pieces@).push(cur@) =~= split_bytes_spec(next, sep));
        } else {
            cur.push(c);
            assert(byte_seqs(pieces@).push(cur@) =~= split_bytes_spec(next, sep));
        }
        j = j + 1;
    }
    pieces.push(cur);
    assert(v@.subrange(0, v@.len() as int) =~= v@);
    assert(byte_seqs(pieces@) =~= split_bytes_spec(v@, sep));
    pieces
}

/// One commit of the history.
#[derive(Debug)]
pub struct GitLogEntry {
    pub hash: String,
    pub full_hash: String,
    pub parents: Vec<String>,
    pub author: String,
    pub date: String,
    pub message: String,
}

/// The abstract value of a commit: short hash, full hash, parents, author, date, subject.
pub type LogView = (Seq<char>, Seq<char>, Seq<Seq<char>>, Seq<char>, Seq<char>, Seq<char>);

impl View for GitLogEntry {
    type V = LogView;

    open spec fn view(&self) -> LogView {
        (
            self.hash@,
            self.full_hash@,
            string_views(self.parents@),
            self.author@,
            self.date@,
            self.message@,
        )
    }
}

/// The views of a sequence of commits.
pub open spec fn log_views(v: Seq<GitLogEntry>) -> Seq<LogView> {
    v.map_values(|e: GitLogEntry| e@)
}

/// Bytes read as UTF-8, or the empty text when they are not valid UTF-8.
pub open spec fn utf8_text(b: Seq<u8>) -> Seq<char> {
    if valid_utf8(b) {
        decode_utf8(b)
    } else {
        Seq::empty()
    }
}

/// The NUL-separated fields of one line of log output, each read as UTF-8.
pub open spec fn log_fields(line: Seq<u8>) -> Seq<Seq<char>> {
    split_bytes_spec(line, 0).map_values(|f: Seq<u8>| utf8_text(f))
}

/// The commit one line of log output describes, if it has at least six fields.
pub open spec fn log_entry_of_line(line: Seq<u8>) -> Option<LogView> {
    let f = log_fields(line);
    if line.len() == 0 || f.len() < 6 {
        None
    } else {
        Some((f[0], f[1], words_spec(f[2]), f[3], f[4], f[5]))
    }
}

/// The commits the lines describe, in order.
pub open spec fn log_entries_of_lines(ls: Seq<Seq<u8>>) -> Seq<LogView>
    decreases ls.len(),
{
    if ls.len() == 0 {
        Seq::empty()
    } else {
        match log_entry_of_line(ls.last()) {
            Some(e) => log_entries_of_lines(ls.drop_last()).push(e),
            None => log_entries_of_lines(ls.drop_last()),
        }
    }
}

/// The commits of `git log --format=%h%x00%H%x00%P%x00%an%x00%ai%x00%s` output.
pub open spec fn log_entries(raw: Seq<u8>) -> Seq<LogView> {
    log_entries_of_lines(split_bytes_spec(raw, 10))
}

fn strings_of_words(ws: &Vec<Vec<char>>) -> (r: Vec<String>)
    ensures
        string_views(r@) == seqs(ws@),
{
    let mut out: Vec<String> = Vec::new();
    let mut i: usize = 0;
    while i < ws.len()
        invariant
            i <= ws@.len(),
            string_views(out@) == seqs(ws@).take(i as int),
        decreases ws@.len() - i,
    {
        let w = string_of(ws[i].as_slice());
        assert(seqs(ws@)[i as int] == ws@[i as int]@);
        let ghost prev = string_views(out@);
        out.push(w);
        assert(string_views(out@) =~= prev.push(w@));
        assert(seqs(ws@).take(i + 1) =~= seqs(ws@).take(i as int).push(ws@[i as int]@));
        i = i + 1;
    }
    assert(seqs(ws@).take(ws@.len() as int) =~= seqs(ws@));
    out
}

fn log_entry_from_line(line: &Vec<u8>) -> (r: Option<GitLogEntry>)
    ensures
        match r {
            Some(e) => log_entry_of_line(line@) == Some(e@),
            None => log_entry_of_line(line@) is None,
        },
{
    if line.len() == 0 {
        return None;
    }
    let pieces = split_bytes(line.as_slice(), 0);
    if pieces.len() < 6 {
        return None;
    }
    let ghost f = log_fields(line@);
    assert(forall|k: int| 0 <= k < 6 ==> #[trigger] f[k] == utf8_text(pieces@[k]@)) by {
        assert forall|k: int| 0 <= k < 6 implies #[trigger] f[k] == utf8_text(pieces@[k]@) by {
            assert(byte_seqs(pieces@)[k] == pieces@[k]@);
        }
    }
    let hash = utf8_or_empty(pieces[0].as_slice());
    let full_hash = utf8_or_empty(pieces[1].as_slice());
    let parents_text = utf8_or_empty(pieces[2].as_slice());
    let author = utf8_or_empty(pieces[3].as_slice());
    let date = utf8_or_empty(pieces[4].as_slice());
    let message = utf8_or_empty(pieces[5].as_slice());
    let pv = chars_of(parents_text.as_str());
    assert(pv@.subrange(0, pv@.len() as int) =~= pv@);
    let ws = words_range(&pv, 0, pv.len());
    let parents = strings_of_words(&ws);
    Some(GitLogEntry { hash, full_hash, parents, author, date, message })
}

/// Parses the raw output of the history query: one commit per line, fields separated by
/// NUL bytes, each field read as UTF-8 (or empty when it is not), the parents split at
/// white space; lines with fewer than six fields are skipped.
pub fn parse_log(raw: &[u8]) -> (r: Vec<GitLogEntry>)
    ensures
        log_views(r@) == log_entries(raw@),
{
    let lines = split_bytes(raw, 10);
    let ghost ls = split_bytes_spec(raw@, 10);
    let mut out: Vec<GitLogEntry> = Vec::new();
    let mut i: usize = 0;
    while i < lines.len()
        invariant
            byte_seqs(lines@) == ls,
            i <= lines@.len(),
            log_views(out@) == log_entries_of_lines(ls.take(i as int)),
        decreases lines@.len() - i,
    {
        assert(byte_seqs(lines@)[i as int] == lines@[i as int]@);
        assert(ls.take(i + 1).drop_last() =~= ls.take(i as int));
        assert(ls.take(i + 1).last() == ls[i as int]);
        match log_entry_from_line(&lines[i]) {
            Some(e) => {
                let ghost prev = log_views(out@);
                out.push(e);
                assert(log_views(out@) =~= prev.push(e@));
            },
            None => {},
        }
        i = i + 1;
    }
    assert(ls.take(lines@.len() as int) =~= ls);
    out
}

/// The history a log query gave: its commits; no commits for a repository without any
/// (the error mentions `does not have any commits`); otherwise the error text.
pub fn git_log(out: &CommandOutput) -> (r: Result<Vec<GitLogEntry>, String>)
    ensures
        out.success ==> (r matches Ok(es) && log_views(es@) == log_entries(out.stdout@)),
        !out.success && contains_spec(lossy(out.stderr@), "does not have any commits"@) ==> (r matches Ok(es) && es@.len() == 0),
        !out.success && !contains_spec(lossy(out.stderr@), "does not have any commits"@) ==> (r matches Err(e) && e@ == lossy(out.stderr@)),
{
    if out.success {
        return Ok(parse_log(out.stdout.as_slice()));
    }
    let err = utf8_lossy(out.stderr.as_slice());
    if crate::text::str_contains(err.as_str(), "does not have any commits") {
        Ok(Vec::new())
    } else {
        Err(err)
    }
}

/// A submodule of the repository.
#[derive(Debug)]
pub struct SubmoduleInfo {
    pub path: String,
    pub name: String,
}

/// The submodule one line of `git submodule status` output names, as (path, name):
/// the second word of the line, and its part after the last `/`.
pub open spec fn submodule_of_line(l: Seq<char>) -> Option<(Seq<char>, Seq<char>)> {
    let t = trim(l);
    let parts = words_spec(t);
    if t.len() == 0 || parts.len() < 2 {
        None
    } else {
        Some((parts[1], split_spec(parts[1], '/').last()))
    }
}

/// The submodules the lines name, in order.
pub open spec fn submodules_of_lines(ls: Seq<Seq<char>>) -> Seq<(Seq<char>, Seq<char>)>
    decreases ls.len(),
{
    if ls.len() == 0 {
        Seq::empty()
    } else {
        match submodule_of_line(ls.last()) {
            Some(m) => submodules_of_lines(ls.drop_last()).push(m),
            None => submodules_of_lines(ls.drop_last()),
        }
    }
}

/// The views of a sequence of submodules.
pub open spec fn submodule_views(v: Seq<SubmoduleInfo>) -> Seq<(Seq<char>, Seq<char>)> {
    v.map_values(|m: SubmoduleInfo| (m.path@, m.name@))
}

fn submodule_from_line(l: &Vec<char>) -> (r: Option<SubmoduleInfo>)
    ensures
        match r {
            Some(m) => submodule_of_line(l@) == Some((m.path@, m.name@)),
            None => submodule_of_line(l@) is None,
        },
{
    let (a, b) = trim_bounds(l, 0, l.len());
    assert(l@.subrange(0, l@.len() as int) =~= l@);
    if a == b {
        return None;
    }
    let parts = words_range(l, a, b);
    if parts.len() < 2 {
        return None;
    }
    assert(seqs(parts@)[1] == parts@[1]@);
    let p = &parts[1];
    let pieces = split_range(p, 0, p.len(), '/');
    assert(p@.subrange(0, p@.len() as int) =~= p@);
    proof {
        lemma_split_nonempty(p@, '/');
    }
    let last = &pieces[pieces.len() - 1];
    assert(seqs(pieces@)[pieces@.len() - 1] == last@);
    Some(SubmoduleInfo { path: string_of(p.as_slice()), name: string_of(last.as_slice()) })
}

/// The submodules `git submodule status` listed; none when it failed.
pub fn list_submodules(out: &CommandOutput) -> (r: Vec<SubmoduleInfo>)
    ensures
        !out.success ==> r@.len() == 0,
        out.success ==> submodule_views(r@) == submodules_of_lines(lines_spec(lossy(out.stdout@))),
{
    let mut res: Vec<SubmoduleInfo> = Vec::new();
    if !out.success {
        return res;
    }
    let text = utf8_lossy(out.stdout.as_slice());
    let v = chars_of(text.as_str());
    assert(v@.subrange(0, v@.len() as int) =~= v@);
    let ls = lines_range(&v, 0, v.len());
    let ghost all = lines_spec(text@);
    let mut i: usize = 0;
    while i < ls.len()
        invariant
            seqs(ls@) == all,
            i <= ls@.len(),
            submodule_views(res@) == submodules_of_lines(all.take(i as int)),
        decreases ls@.len() - i,
    {
        assert(seqs(ls@)[i as int] == ls@[i as int]@);
        assert(all.take(i + 1).drop_last() =~= all.take(i as int));
        assert(all.take(i + 1).last() == all[i as int]);
        match submodule_from_line(&ls[i]) {
            Some(m) => {
                let ghost prev = submodule_views(res@);
                let ghost mv = (m.path@, m.name@);
                res.push(m);
                assert(submodule_views(res@) =~= prev.push(mv));
            },
            None => {},
        }
        i = i + 1;
    }
    assert(all.take(ls@.len() as int) =~= all);
    res
}

/// Each line as an added line of a diff: `+`, the line, and a line break.
pub open spec fn added_lines(ls: Seq<Seq<char>>) -> Seq<char>
    decreases ls.len(),
{
    if ls.len() == 0 {
        Seq::empty()
    } else {
        added_lines(ls.drop_last()) + seq!['+'] + ls.last() + seq!['\n']
    }
}

/// The diff that shows an untracked file as newly added.
pub open spec fn new_file_diff(p: Seq<char>, content: Seq<char>) -> Seq<char> {
    "diff --git a/"@ + p + " b/"@ + p + "\nnew file mode 100644\n--- /dev/null\n+++ b/"@ + p
        + "\n@@ -0,0 +1,"@ + decimal(lines_spec(content).len()) + " @@\n"@ + added_lines(
        lines_spec(content),
    )
}

/// Builds the diff that shows an untracked file of the given content as newly added.
pub fn untracked_file_diff(file_path: &str, content: &str) -> (r: String)
    ensures
        r@ == new_file_diff(file_path@, content@),
{
    let cv = chars_of(content);
    assert(cv@.subrange(0, cv@.len() as int) =~= cv@);
    let ls = lines_range(&cv, 0, cv.len());
    let mut out: Vec<char> = Vec::new();
    push_str_chars(&mut out, "diff --git a/");
    push_str_chars(&mut out, file_path);
    push_str_chars(&mut out, " b/");
    push_str_chars(&mut out, file_path);
    push_str_chars(&mut out, "\nnew file mode 100644\n--- /dev/null\n+++ b/");
    push_str_chars(&mut out, file_path);
    push_str_chars(&mut out, "\n@@ -0,0 +1,");
    push_decimal(&mut out, ls.len() as u64);
    push_str_chars(&mut out, " @@\n");
    let ghost head = out@;
    let mut i: usize = 0;
    while i < ls.len()
        invariant
            i <= ls@.len(),
            out@ == head + added_lines(seqs(ls@).take(i as int)),
        decreases ls@.len() - i,
    {
        assert(seqs(ls@)[i as int] == ls@[i as int]@);
        assert(seqs(ls@).take(i + 1).drop_last() =~= seqs(ls@).take(i as int));
        out.push('+');
        push_all(&mut out, ls[i].as_slice());
        out.push('\n');
        assert(out@ =~= head + added_lines(seqs(ls@).take(i + 1)));
        i = i + 1;
    }
    assert(seqs(ls@).take(ls@.len() as int) =~= seqs(ls@));
    string_of(out.as_slice())
}

/// The diff shown for a file. When `git diff` printed nothing for unstaged changes the
/// file is taken to be untracked: `content` is its content if it could be read, and the
/// diff shows it as newly added (empty when it could not be read).
pub fn get_file_diff(file_path: &str, staged: bool, stdout: &[u8], content: Option<String>) -> (r:
    GitDiff)
    ensures
        r.file_path@ == file_path@,
        r.staged == staged,
        (stdout@.len() == 0 && !staged) ==> r.diff@ == match content {
            Some(c) => new_file_diff(file_path@, c@),
            None => Seq::<char>::empty(),
        },
        !(stdout@.len() == 0 && !staged) ==> r.diff@ == lossy(stdout@),
{
    let diff = if stdout.len() == 0 && !staged {
        match content {
            Some(c) => untracked_file_diff(file_path, c.as_str()),
            None => String::new(),
        }
    } else {
        utf8_lossy(stdout)
    };
    let fp = chars_of(file_path);
    GitDiff { file_path: string_of(fp.as_slice()), diff, staged }
}

/// A lock file left by `git` counts as stale once it is more than a second old.
pub fn lock_is_stale(age_ms: u128) -> (r: bool)
    ensures
        r == (age_ms > 1000),
{
    age_ms > 1000
}

/// How a file's changes are discarded: an untracked file (status `?`) is deleted, at the
/// path `repo_root/file_path` returned here; any other is checked out from `HEAD` (`None`).
pub fn discard_plan(repo_root: &str, file_path: &str, status_code: &str) -> (r: Option<String>)
    ensures
        status_code@ == "?"@ ==> (r matches Some(p) && p@ == repo_root@ + seq!['/'] + file_path@),
        status_code@ != "?"@ ==> r is None,
{
    if crate::text::str_eq(status_code, "?") {
        let mut out: Vec<char> = Vec::new();
        push_str_chars(&mut out, repo_root);
        out.push('/');
        push_str_chars(&mut out, file_path);
        let p = string_of(out.as_slice());
        assert(p@ =~= repo_root@ + seq!['/'] + file_path@);
        Some(p)
    } else {
        None
    }
}

/// Whether the branch list output marks at most one branch of each kind as current, as
/// `git for-each-ref` does (the order `list_branches` gives rests on it).
pub fn branch_marks_ok(output: &str) -> (r: bool)
    ensures
        r == one_current_per_kind(branches_of_lines(lines_spec(output@))),
{
    let v = chars_of(output);
    assert(v@.subrange(0, v@.len() as int) =~= v@);
    let ls = lines_range(&v, 0, v.len());
    let ghost all = lines_spec(output@);
    let mut bs: Vec<GitBranch> = Vec::new();
    let mut i: usize = 0;
    while i < ls.len()
        invariant
            seqs(ls@) == all,
            i <= ls@.len(),
            branch_views(bs@) == branches_of_lines(all.take(i as int)),
        decreases ls@.len() - i,
    {
        assert(seqs(ls@)[i as int] == ls@[i as int]@);
        assert(all.take(i + 1).drop_last() =~= all.take(i as int));
        assert(all.take(i + 1).last() == all[i as int]);
        match branch_from_line(&ls[i]) {
            Some(b) => {
                let ghost prev = branch_views(bs@);
                bs.push(b);
                assert(branch_views(bs@) =~= prev.push(bs@[bs@.len() - 1]@));
            },
            None => {},
        }
        i = i + 1;
    }
    assert(all.take(ls@.len() as int) =~= all);
    let ghost bv = branch_views(bs@);
    let mut a: usize = 0;
    while a < bs.len()
        invariant
            bv == branch_views(bs@),
            bv == branches_of_lines(lines_spec(output@)),
            a <= bs@.len(),
            forall|x: int, y: int|
                0 <= x < a && 0 <= y < bv.len() && x != y && bv[x].1 && bv[y].1 ==> bv[x].2 != bv[y].2,
        decreases bs@.len() - a,
    {
        let mut b: usize = 0;
        while b < bs.len()
            invariant
                bv == branch_views(bs@),
                bv == branches_of_lines(lines_spec(output@)),
                a < bs@.len(),
                b <= bs@.len(),
                forall|x: int, y: int|
                    0 <= x < a && 0 <= y < bv.len() && x != y && bv[x].1 && bv[y].1 ==> bv[x].2 != bv[y].2,
                forall|y: int| 0 <= y < b && a != y && bv[a as int].1 && bv[y].1 ==> bv[a as int].2 != bv[y].2,
            decreases bs@.len() - b,
        {
            assert(bv[a as int] == bs@[a as int]@ && bv[b as int] == bs@[b as int]@);
            if a != b && bs[a].is_current && bs[b].is_current && bs[a].is_remote == bs[b].is_remote {
                assert(!one_current_per_kind(bv)) by {
                    assert(bv[a as int].1 && bv[b as int].1 && bv[a as int].2 == bv[b as int].2);
                }
                return false;
            }
            b = b + 1;
        }
        a = a + 1;
    }
    true
}

} // verus!
