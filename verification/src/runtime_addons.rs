//! Runtime add-ons: the rules their manifests, ids and storage keys must follow, the
//! order in which they are listed, and how a change of their files is told apart.
use crate::git::{lemma_seq_lt_total, lemma_seq_lt_transitive, seq_lt};
use crate::strmap::StrMap;
use crate::text::{
    byte_len, byte_len_exceeds, chars_of, push_str_chars, str_eq, string_of, string_views, trim, trim_str,
};
use vstd::prelude::*;

verus! {

/// The page a manifest opens unless it names one.
pub fn default_entry() -> (r: String)
    ensures
        r@ == "ui/index.html"@,
{
    "ui/index.html".to_owned()
}

/// The protocol of a backend unless the manifest names one.
pub fn default_backend_protocol() -> (r: String)
    ensures
        r@ == "jsonrpc"@,
{
    "jsonrpc".to_owned()
}

/// A character allowed in an add-on id: a lower-case ASCII letter, a digit, `-` or `_`.
pub open spec fn is_id_char(c: char) -> bool {
    ('a' <= c && c <= 'z') || ('0' <= c && c <= '9') || c == '-' || c == '_'
}

/// An add-on id is safe when it is not empty and made of allowed characters only.
pub open spec fn is_safe_addon_id_spec(id: Seq<char>) -> bool {
    id.len() > 0 && forall|i: int| 0 <= i < id.len() ==> is_id_char(#[trigger] id[i])
}

/// Whether an add-on id is safe to use as a directory name.
pub fn is_safe_addon_id(id: &str) -> (r: bool)
    ensures
        r == is_safe_addon_id_spec(id@),
{
    let v = chars_of(id);
    if v.len() == 0 {
        return false;
    }
    let mut i: usize = 0;
    while i < v.len()
        invariant
            v@ == id@,
            i <= v@.len(),
            forall|j: int| 0 <= j < i ==> is_id_char(#[trigger] v@[j]),
        decreases v@.len() - i,
    {
        let c = v[i];
        if !(('a' <= c && c <= 'z') || ('0' <= c && c <= '9') || c == '-' || c == '_') {
            return false;
        }
        i = i + 1;
    }
    true
}

/// A character allowed in a storage key: an ASCII letter or digit, `-`, `_` or `.`.
pub open spec fn is_key_char(c: char) -> bool {
    ('a' <= c && c <= 'z') || ('A' <= c && c <= 'Z') || ('0' <= c && c <= '9') || c == '-' || c == '_' || c == '.'
}

/// A storage key is safe when it is not empty, at most 128 bytes long, and made of
/// allowed characters only.
pub open spec fn is_safe_storage_key_spec(key: Seq<char>) -> bool {
    &&& key.len() > 0
    &&& byte_len(key) <= 128
    &&& forall|i: int| 0 <= i < key.len() ==> is_key_char(#[trigger] key[i])
}

/// A storage key is accepted exactly when it is not empty, takes at most 128 bytes, and
/// holds only ASCII letters (either case), digits, `-`, `_` and `.`.
pub proof fn law_storage_key_alphabet(key: Seq<char>)
    ensures
        is_safe_storage_key_spec(key) <==> (key.len() > 0 && byte_len(key) <= 128 && forall|i: int|
            0 <= i < key.len() ==> {
                let c = #[trigger] key[i];
                ('a' <= c <= 'z') || ('A' <= c <= 'Z') || ('0' <= c <= '9') || c == '-' || c == '_' || c == '.'
            }),
{
}

/// Whether a storage key is safe to use as a file name.
pub fn is_safe_storage_key(key: &str) -> (r: bool)
    ensures
        r == is_safe_storage_key_spec(key@),
{
    let v = chars_of(key);
    if v.len() == 0 {
        return false;
    }
    if byte_len_exceeds(v.as_slice(), 128) {
        return false;
    }
    let mut i: usize = 0;
    while i < v.len()
        invariant
            v@ == key@,
            i <= v@.len(),
            forall|j: int| 0 <= j < i ==> is_key_char(#[trigger] v@[j]),
        decreases v@.len() - i,
    {
        let c = v[i];
        if !(('a' <= c && c <= 'z') || ('A' <= c && c <= 'Z') || ('0' <= c && c <= '9') || c == '-' || c == '_'
            || c == '.') {
            return false;
        }
        i = i + 1;
    }
    true
}

/// The kinds of add-on backends.
#[derive(Debug, Clone, Copy, PartialEq, Eq, Structural)]
pub enum RuntimeAddonBackendType {
    /// A program started for each call, talking JSON-RPC on its standard streams.
    Sidecar,
}

/// An add-on's backend: its kind, the program (relative to the add-on's directory) and
/// the protocol.
#[derive(Debug)]
pub struct RuntimeAddonBackend {
    pub backend_type: RuntimeAddonBackendType,
    pub command: String,
    pub protocol: String,
}

/// The message of a path that is absolute or leaves its directory.
pub open spec fn unsafe_path_message(label: Seq<char>) -> Seq<char> {
    label + " must be a safe relative path"@
}

/// The message of a path whose file does not exist.
pub open spec fn missing_file_message(label: Seq<char>, full_path: Seq<char>) -> Seq<char> {
    label + " not found: "@ + full_path
}

/// `c` separates path components (`/`, and `\\` as on Windows).
pub open spec fn is_path_sep(c: char) -> bool {
    c == '/' || c == '\\'
}

/// A `..` component of `p` starts at `i`: two dots with a separator or the end of the
/// path on each side.
pub open spec fn parent_step_at(p: Seq<char>, i: int) -> bool {
    &&& 0 <= i && i + 2 <= p.len()
    &&& p[i] == '.' && p[i + 1] == '.'
    &&& (i == 0 || is_path_sep(p[i - 1]))
    &&& (i + 2 == p.len() || is_path_sep(p[i + 2]))
}

/// `p` is a safe relative path: it does not start at a root (a separator), names no drive
/// (`X:`), and has no `..` component, so that it stays inside the directory it is taken
/// from.
pub open spec fn relative_safe(p: Seq<char>) -> bool {
    &&& !(p.len() > 0 && is_path_sep(p[0]))
    &&& !(p.len() >= 2 && p[1] == ':')
    &&& forall|i: int| !#[trigger] parent_step_at(p, i)
}

/// Whether `relative` is a safe relative path (see `relative_safe`).
pub fn relative_is_safe(relative: &str) -> (b: bool)
    ensures
        b == relative_safe(relative@),
{
    let v = chars_of(relative);
    let n = v.len();
    if n > 0 && (v[0] == '/' || v[0] == '\\') {
        return false;
    }
    if n >= 2 && v[1] == ':' {
        return false;
    }
    let mut i: usize = 0;
    while i < n
        invariant
            v@ == relative@,
            n == v@.len(),
            i <= n,
            forall|j: int| 0 <= j < i ==> !#[trigger] parent_step_at(v@, j),
        decreases n - i,
    {
        if i + 1 < n && v[i] == '.' && v[i + 1] == '.' && (i == 0 || v[i - 1] == '/' || v[i - 1] == '\\') && (i + 2 == n || v[i + 2]
            == '/' || v[i + 2] == '\\') {
            assert(parent_step_at(v@, i as int));
            return false;
        }
        i = i + 1;
    }
    assert forall|j: int| !#[trigger] parent_step_at(v@, j) by {
        if parent_step_at(v@, j) {
            assert(j < i);
        }
    }
    true
}

/// Absolute and root-relative paths and `..` traversal are never safe: a path that starts
/// with a separator, or that holds a `..` component anywhere, is refused.
pub proof fn law_traversal_rejected(before: Seq<char>, after: Seq<char>)
    requires
        before.len() == 0 || is_path_sep(before.last()),
        after.len() == 0 || is_path_sep(after[0]),
    ensures
        !relative_safe(before + seq!['.', '.'] + after),
        !relative_safe(seq!['/'] + after),
        !relative_safe(seq!['\\'] + after),
{
    let p = before + seq!['.', '.'] + after;
    let i = before.len() as int;
    assert(p[i] == '.' && p[i + 1] == '.');
    if i > 0 {
        assert(p[i - 1] == before.last());
    }
    if after.len() > 0 {
        assert(p[i + 2] == after[0]);
    }
    assert(parent_step_at(p, i));
    assert((seq!['/'] + after)[0] == '/');
    assert((seq!['\\'] + after)[0] == '\\');
}

/// Checks a file an add-on names by a path relative to its directory: given the path, the
/// full path it makes, and whether a file is there, the full path, or the error telling
/// what is wrong: an unsafe path (see `relative_safe`) first, then a missing file.
pub fn validate_relative_file(relative: &str, full_path: &str, is_file: bool, label: &str) -> (r: Result<String, String>)
    ensures
        !relative_safe(relative@) ==> (r matches Err(e) && e@ == unsafe_path_message(label@)),
        relative_safe(relative@) && !is_file ==> (r matches Err(e) && e@ == missing_file_message(label@, full_path@)),
        relative_safe(relative@) && is_file ==> (r matches Ok(p) && p@ == full_path@),
{
    if !relative_is_safe(relative) {
        let mut out: Vec<char> = Vec::new();
        push_str_chars(&mut out, label);
        push_str_chars(&mut out, " must be a safe relative path");
        return Err(string_of(out.as_slice()));
    }
    if !is_file {
        let mut out: Vec<char> = Vec::new();
        push_str_chars(&mut out, label);
        push_str_chars(&mut out, " not found: ");
        push_str_chars(&mut out, full_path);
        return Err(string_of(out.as_slice()));
    }
    Ok(full_path.to_owned())
}

/// What was found of a manifest's backend: its protocol, and the check of its program.
#[derive(Debug)]
pub struct BackendCheck {
    pub protocol: String,
    pub command: Result<String, String>,
}

/// The first problem of a manifest, in the order the checks are made: the id, the title,
/// the entry page, the backend's protocol, the backend's program.
pub open spec fn manifest_error_spec(
    id: Seq<char>,
    title: Seq<char>,
    entry: Result<Seq<char>, Seq<char>>,
    backend: Option<(Seq<char>, Result<Seq<char>, Seq<char>>)>,
) -> Option<Seq<char>> {
    if !is_safe_addon_id_spec(id) {
        Some("Addon id must contain only lowercase letters, digits, '-' or '_'"@)
    } else if trim(title).len() == 0 {
        Some("Addon title cannot be empty"@)
    } else if entry is Err {
        Some(entry->Err_0)
    } else {
        match backend {
            None => None,
            Some((protocol, command)) => if protocol != "jsonrpc"@ {
                Some("Only jsonrpc sidecar backend protocol is supported"@)
            } else {
                match command {
                    Err(e) => Some(e),
                    Ok(_) => None,
                }
            },
        }
    }
}

/// The view of a checked path.
pub open spec fn result_view(r: Result<String, String>) -> Result<Seq<char>, Seq<char>> {
    match r {
        Ok(p) => Ok(p@),
        Err(e) => Err(e@),
    }
}

/// The view of a backend check.
pub open spec fn backend_view(b: Option<BackendCheck>) -> Option<(Seq<char>, Result<Seq<char>, Seq<char>>)> {
    match b {
        Some(c) => Some((c.protocol@, result_view(c.command))),
        None => None,
    }
}

fn copy_string(s: &String) -> (r: String)
    ensures
        r@ == s@,
{
    s.clone()
}

/// The first problem of a manifest (see `manifest_error_spec`), or none.
pub fn manifest_error(id: &str, title: &str, entry: &Result<String, String>, backend: &Option<BackendCheck>) -> (r: Option<String>)
    ensures
        match r {
            Some(e) => manifest_error_spec(id@, title@, result_view(*entry), backend_view(*backend)) == Some(e@),
            None => manifest_error_spec(id@, title@, result_view(*entry), backend_view(*backend)) is None,
        },
{
    if !is_safe_addon_id(id) {
        return Some("Addon id must contain only lowercase letters, digits, '-' or '_'".to_owned());
    }
    let t = trim_str(title);
    if t.as_str().is_empty() {
        return Some("Addon title cannot be empty".to_owned());
    }
    match entry {
        Err(e) => {
            return Some(copy_string(e));
        },
        Ok(_) => {},
    }
    match backend {
        None => None,
        Some(b) => {
            if !str_eq(b.protocol.as_str(), "jsonrpc") {
                return Some("Only jsonrpc sidecar backend protocol is supported".to_owned());
            }
            match &b.command {
                Err(e) => Some(copy_string(e)),
                Ok(_) => None,
            }
        },
    }
}

/// The message of an unsafe storage key.
pub open spec fn bad_key_message() -> Seq<char> {
    "Storage key must contain only letters, digits, '-', '_' or '.' and be at most 128 chars"@
}

/// The file, inside the add-on's storage directory, that holds the value stored under a
/// key: the key followed by `.json`. An unsafe key is refused first, then an unsafe id.
pub fn storage_value_file(addon_id: &str, key: &str) -> (r: Result<String, String>)
    ensures
        !is_safe_storage_key_spec(key@) ==> (r matches Err(e) && e@ == bad_key_message()),
        is_safe_storage_key_spec(key@) && !is_safe_addon_id_spec(addon_id@) ==> (r matches Err(e) && e@ == "Invalid addon id"@),
        is_safe_storage_key_spec(key@) && is_safe_addon_id_spec(addon_id@) ==> (r matches Ok(f) && f@ == key@ + ".json"@),
{
    if !is_safe_storage_key(key) {
        return Err("Storage key must contain only letters, digits, '-', '_' or '.' and be at most 128 chars".to_owned());
    }
    if !is_safe_addon_id(addon_id) {
        return Err("Invalid addon id".to_owned());
    }
    let mut out: Vec<char> = Vec::new();
    push_str_chars(&mut out, key);
    push_str_chars(&mut out, ".json");
    Ok(string_of(out.as_slice()))
}

/// Checks the method of a call to an add-on's backend: it must not be blank.
pub fn check_rpc_method(method: &str) -> (r: Result<(), String>)
    ensures
        trim(method@).len() == 0 ==> (r matches Err(e) && e@ == "JSON-RPC method cannot be empty"@),
        trim(method@).len() > 0 ==> r is Ok,
{
    let t = trim_str(method);
    if t.as_str().is_empty() {
        Err("JSON-RPC method cannot be empty".to_owned())
    } else {
        Ok(())
    }
}

/// The index of the first id that repeats an earlier one.
pub open spec fn first_duplicate(ids: Seq<Seq<char>>) -> Option<int>
    decreases ids.len(),
{
    if ids.len() == 0 {
        None
    } else {
        match first_duplicate(ids.drop_last()) {
            Some(j) => Some(j),
            None => if ids.drop_last().contains(ids.last()) {
                Some(ids.len() - 1)
            } else {
                None
            },
        }
    }
}

/// `x` (an id and its index) inserted after every element whose id is not greater.
pub open spec fn insert_by_id(s: Seq<(Seq<char>, int)>, x: (Seq<char>, int)) -> Seq<(Seq<char>, int)>
    decreases s.len(),
{
    if s.len() > 0 && seq_lt(x.0, s.last().0) {
        insert_by_id(s.drop_last(), x).push(s.last())
    } else {
        s.push(x)
    }
}

/// The ids with their indices, sorted by id (ids compare by character code, as strings do).
pub open spec fn sort_by_id(ids: Seq<Seq<char>>) -> Seq<(Seq<char>, int)>
    decreases ids.len(),
{
    if ids.len() == 0 {
        Seq::empty()
    } else {
        insert_by_id(sort_by_id(ids.drop_last()), (ids.last(), ids.len() - 1))
    }
}

proof fn lemma_insert_by_id_len(s: Seq<(Seq<char>, int)>, x: (Seq<char>, int))
    ensures
        insert_by_id(s, x).len() == s.len() + 1,
    decreases s.len(),
{
    if s.len() > 0 && seq_lt(x.0, s.last().0) {
        lemma_insert_by_id_len(s.drop_last(), x);
    }
}

proof fn lemma_sort_by_id_len(ids: Seq<Seq<char>>)
    ensures
        sort_by_id(ids).len() == ids.len(),
    decreases ids.len(),
{
    if ids.len() > 0 {
        lemma_sort_by_id_len(ids.drop_last());
        lemma_insert_by_id_len(sort_by_id(ids.drop_last()), (ids.last(), ids.len() - 1));
    }
}

/// The message of a repeated add-on id.
pub open spec fn duplicate_message(id: Seq<char>) -> Seq<char> {
    "Duplicate addon id: "@ + id
}

fn sorted_insert(out: &mut Vec<usize>, ids: &Vec<String>, i: usize, sorted: Ghost<Seq<(Seq<char>, int)>>)
    requires
        i < ids@.len(),
        old(out)@.len() == sorted@.len(),
        forall|k: int| 0 <= k < sorted@.len() ==> 0 <= (#[trigger] sorted@[k]).1 < ids@.len() && old(out)@[k] == sorted@[k].1
            && sorted@[k].0 == ids@[sorted@[k].1]@,
    ensures
        ({
            let ins = insert_by_id(sorted@, (ids@[i as int]@, i as int));
            &&& final(out)@.len() == ins.len()
            &&& forall|k: int| 0 <= k < ins.len() ==> 0 <= (#[trigger] ins[k]).1 < ids@.len() && final(out)@[k] == ins[k].1
                && ins[k].0 == ids@[ins[k].1]@
        }),
{
    let ghost x = (ids@[i as int]@, i as int);
    let ghost s = sorted@;
    let ghost ins = insert_by_id(s, x);
    out.push(i);
    let mut k = out.len() - 1;
    assert(s.subrange(0, k as int) =~= s);
    assert(s.subrange(k as int, s.len() as int) =~= Seq::<(Seq<char>, int)>::empty());
    assert(ins =~= insert_by_id(s.subrange(0, k as int), x) + s.subrange(k as int, s.len() as int));
    let xid = chars_of(ids[i].as_str());
    loop
        invariant
            0 <= k < out@.len(),
            out@.len() == s.len() + 1,
            i < ids@.len(),
            xid@ == x.0,
            x == (ids@[i as int]@, i as int),
            ins == insert_by_id(s, x),
            out@[k as int] == i,
            forall|j: int| 0 <= j < s.len() ==> 0 <= (#[trigger] s[j]).1 < ids@.len() && s[j].0 == ids@[s[j].1]@,
            forall|j: int| 0 <= j < k ==> out@[j] == (#[trigger] s[j]).1,
            forall|j: int| k < j < out@.len() ==> out@[j] == (#[trigger] s[j - 1]).1,
            ins == insert_by_id(s.subrange(0, k as int), x) + s.subrange(k as int, s.len() as int),
        ensures
            0 <= k < out@.len(),
            out@[k as int] == i,
            forall|j: int| 0 <= j < k ==> out@[j] == (#[trigger] s[j]).1,
            forall|j: int| k < j < out@.len() ==> out@[j] == (#[trigger] s[j - 1]).1,
            ins == insert_by_id(s.subrange(0, k as int), x) + s.subrange(k as int, s.len() as int),
            k == 0 || !seq_lt(x.0, s[k - 1].0),
        decreases k,
    {
        if k == 0 {
            break;
        }
        let prev_idx = out[k - 1];
        let pid = chars_of(ids[prev_idx].as_str());
        assert(out@[k - 1] == s[k - 1].1);
        if !crate::git::chars_lt(&xid, &pid) {
            break;
        }
        proof {
            let pre = s.subrange(0, k as int);
            assert(pre.last() == s[k - 1]);
            assert(pre.drop_last() =~= s.subrange(0, k - 1));
            assert(s.subrange(k - 1, s.len() as int) =~= seq![s[k - 1]] + s.subrange(k as int, s.len() as int));
            assert(ins =~= insert_by_id(s.subrange(0, k - 1), x) + s.subrange(k - 1, s.len() as int));
        }
        out.set(k, prev_idx);
        out.set(k - 1, i);
        k = k - 1;
    }
    proof {
        let pre = s.subrange(0, k as int);
        if k > 0 {
            assert(pre.last() == s[k - 1]);
        }
        assert(insert_by_id(pre, x) == pre.push(x));
        assert(ins =~= pre.push(x) + s.subrange(k as int, s.len() as int));
        assert forall|j: int| 0 <= j < ins.len() implies 0 <= (#[trigger] ins[j]).1 < ids@.len() && out@[j] == ins[j].1
            && ins[j].0 == ids@[ins[j].1]@ by {
            if j < k {
                assert(ins[j] == s[j]);
            } else if j == k {
                assert(ins[j] == x);
            } else {
                assert(ins[j] == s[j - 1]);
            }
        }
    }
}

/// The order in which add-ons are listed: the indices of their ids sorted by id; an id
/// that repeats an earlier one is refused, the first such.
pub fn sort_addon_ids(ids: &Vec<String>) -> (r: Result<Vec<usize>, String>)
    ensures
        match first_duplicate(string_views(ids@)) {
            Some(j) => r matches Err(e) && e@ == duplicate_message(string_views(ids@)[j]),
            None => r matches Ok(order) && order@.len() == ids@.len() && forall|k: int|
                0 <= k < order@.len() ==> order@[k] == (#[trigger] sort_by_id(string_views(ids@))[k]).1,
        },
{
    let ghost all = string_views(ids@);
    let mut out: Vec<usize> = Vec::new();
    let mut seen: StrMap<()> = StrMap::new();
    let mut i: usize = 0;
    while i < ids.len()
        invariant
            all == string_views(ids@),
            i <= ids@.len(),
            seen.wf(),
            seen@.dom() == all.take(i as int).to_set(),
            first_duplicate(all.take(i as int)) is None,
            out@.len() == sort_by_id(all.take(i as int)).len(),
            forall|k: int| 0 <= k < out@.len() ==> 0 <= (#[trigger] sort_by_id(all.take(i as int))[k]).1 < ids@.len()
                && out@[k] == sort_by_id(all.take(i as int))[k].1
                && sort_by_id(all.take(i as int))[k].0 == ids@[sort_by_id(all.take(i as int))[k].1]@,
        decreases ids@.len() - i,
    {
        let ghost pre = all.take(i as int);
        let ghost cur = all.take(i + 1);
        assert(cur.drop_last() =~= pre);
        assert(cur.last() == ids@[i as int]@);
        assert(all[i as int] == ids@[i as int]@);
        if seen.contains_key(ids[i].as_str()) {
            proof {
                assert(pre.contains(all[i as int]));
                assert(first_duplicate(cur) == Some(i as int));
                lemma_first_duplicate_prefix(all, i + 1);
            }
            let mut m: Vec<char> = Vec::new();
            push_str_chars(&mut m, "Duplicate addon id: ");
            push_str_chars(&mut m, ids[i].as_str());
            let e = string_of(m.as_slice());
            assert(first_duplicate(all) == Some(i as int));
            assert(e@ == duplicate_message(all[i as int]));
            return Err(e);
        }
        proof {
            assert(!pre.contains(all[i as int]));
        }
        sorted_insert(&mut out, ids, i, Ghost(sort_by_id(pre)));
        seen.insert(ids[i].clone(), ());
        assert(cur.to_set() =~= pre.to_set().insert(all[i as int])) by {
            assert forall|y: Seq<char>| cur.to_set().contains(y) <==> pre.to_set().insert(all[i as int]).contains(y) by {
                if cur.contains(y) {
                    let k = choose|k: int| 0 <= k < cur.len() && cur[k] == y;
                    if k < i {
                        assert(pre[k] == y);
                    }
                }
                if pre.contains(y) {
                    let k = choose|k: int| 0 <= k < pre.len() && pre[k] == y;
                    assert(cur[k] == y);
                }
                if y == all[i as int] {
                    assert(cur[i as int] == y);
                }
            }
        }
        i = i + 1;
    }
    assert(all.take(ids@.len() as int) =~= all);
    assert(first_duplicate(all) is None);
    proof {
        lemma_sort_by_id_len(all);
    }
    Ok(out)
}

proof fn lemma_first_duplicate_prefix(ids: Seq<Seq<char>>, k: int)
    requires
        0 <= k <= ids.len(),
        first_duplicate(ids.take(k)) is Some,
    ensures
        first_duplicate(ids) == first_duplicate(ids.take(k)),
    decreases ids.len() - k,
{
    if k < ids.len() {
        assert(ids.take(k + 1).drop_last() =~= ids.take(k));
        lemma_first_duplicate_prefix(ids, k + 1);
    } else {
        assert(ids.take(k) =~= ids);
    }
}

/// How the add-ons' files changed between two scans, from the fingerprints of each
/// add-on (by id): whether nothing changed, the add-ons that went away, and those whose
/// files changed.
#[derive(Debug)]
pub struct FingerprintDiff {
    pub unchanged: bool,
    pub removed: Vec<String>,
    pub changed: Vec<String>,
}

/// The fingerprints by id, as text.
pub open spec fn fingerprint_views(m: Map<Seq<char>, String>) -> Map<Seq<char>, Seq<char>> {
    Map::new(|k: Seq<char>| m.dom().contains(k), |k: Seq<char>| m[k]@)
}

/// The ids whose fingerprint is in `known` and differs in `current`.
pub open spec fn changed_ids(known: Map<Seq<char>, Seq<char>>, current: Map<Seq<char>, Seq<char>>) -> Set<Seq<char>> {
    Set::new(|k: Seq<char>| current.dom().contains(k) && known.dom().contains(k) && known[k] != current[k])
}

/// Compares the fingerprints of two scans.
pub fn fingerprint_changes(known: &StrMap<String>, current: &StrMap<String>) -> (r: FingerprintDiff)
    requires
        known.wf(),
        current.wf(),
    ensures
        r.unchanged == (fingerprint_views(known@) == fingerprint_views(current@)),
        string_views(r.removed@).to_set() == known@.dom().difference(current@.dom()),
        string_views(r.removed@).no_duplicates(),
        string_views(r.changed@).to_set() == changed_ids(fingerprint_views(known@), fingerprint_views(current@)),
        string_views(r.changed@).no_duplicates(),
{
    let ghost kv = fingerprint_views(known@);
    let ghost cv = fingerprint_views(current@);
    let kk = known.keys();
    let ck = current.keys();
    let ghost kks = string_views(kk@);
    let ghost cks = string_views(ck@);
    assert(kks =~= kk@.map_values(|s: String| s@));
    assert(cks =~= ck@.map_values(|s: String| s@));
    let mut removed: Vec<String> = Vec::new();
    let mut i: usize = 0;
    while i < kk.len()
        invariant
            known.wf(),
            current.wf(),
            kks == string_views(kk@),
            kks.to_set() == known@.dom(),
            kks.no_duplicates(),
            i <= kk@.len(),
            forall|y: Seq<char>| string_views(removed@).contains(y) <==> (exists|j: int| 0 <= j < i && kks[j] == y) && !current@.dom().contains(y),
            string_views(removed@).no_duplicates(),
            forall|a: int| 0 <= a < removed@.len() ==> exists|j: int| 0 <= j < i && kks[j] == (#[trigger] string_views(removed@)[a]),
        decreases kk@.len() - i,
    {
        assert(kks[i as int] == kk@[i as int]@);
        if !current.contains_key(kk[i].as_str()) {
            let ghost prev = string_views(removed@);
            removed.push(kk[i].clone());
            proof {
                let now = string_views(removed@);
                assert(now =~= prev.push(kks[i as int]));
                assert forall|a: int, b: int| 0 <= a < b < now.len() implies now[a] != now[b] by {
                    if b == now.len() - 1 {
                        let j = choose|j: int| 0 <= j < i && kks[j] == prev[a];
                        assert(now[a] == prev[a]);
                    } else {
                        assert(now[a] == prev[a] && now[b] == prev[b]);
                    }
                }
                assert forall|a: int| 0 <= a < now.len() implies exists|j: int| 0 <= j < i + 1 && kks[j] == #[trigger] now[a] by {
                    if a < prev.len() {
                        assert(now[a] == prev[a]);
                    }
                }
                assert forall|y: Seq<char>| now.contains(y) <==> (exists|j: int| 0 <= j < i + 1 && kks[j] == y) && !current@.dom().contains(y) by {
                    if now.contains(y) {
                        let a = choose|a: int| 0 <= a < now.len() && now[a] == y;
                        if a < prev.len() {
                            assert(prev[a] == y);
                            assert(prev.contains(y));
                        }
                    }
                    if (exists|j: int| 0 <= j < i + 1 && kks[j] == y) && !current@.dom().contains(y) {
                        let j = choose|j: int| 0 <= j < i + 1 && kks[j] == y;
                        if j < i {
                            assert(prev.contains(y));
                            let a = choose|a: int| 0 <= a < prev.len() && prev[a] == y;
                            assert(now[a] == y);
                        } else {
                            assert(now[now.len() - 1] == y);
                        }
                    }
                }
            }
        }
        i = i + 1;
    }
    proof {
        let rs = string_views(removed@);
        assert forall|y: Seq<char>| rs.to_set().contains(y) <==> known@.dom().difference(current@.dom()).contains(y) by {
            if known@.dom().contains(y) {
                assert(kks.to_set().contains(y));
                assert(kks.contains(y));
            }
            if rs.contains(y) {
                let j = choose|j: int| 0 <= j < i && kks[j] == y;
                assert(kks.contains(y));
            }
        }
        assert(rs.to_set() =~= known@.dom().difference(current@.dom()));
    }
    let mut changed: Vec<String> = Vec::new();
    let mut j: usize = 0;
    while j < ck.len()
        invariant
            known.wf(),
            current.wf(),
            kv == fingerprint_views(known@),
            cv == fingerprint_views(current@),
            cks == string_views(ck@),
            cks.to_set() == current@.dom(),
            cks.no_duplicates(),
            j <= ck@.len(),
            forall|y: Seq<char>| string_views(changed@).contains(y) <==> (exists|m: int| 0 <= m < j && cks[m] == y) && changed_ids(kv, cv).contains(y),
            string_views(changed@).no_duplicates(),
            forall|a: int| 0 <= a < changed@.len() ==> exists|m: int| 0 <= m < j && cks[m] == (#[trigger] string_views(changed@)[a]),
        decreases ck@.len() - j,
    {
        assert(cks[j as int] == ck@[j as int]@);
        let ghost y0 = cks[j as int];
        assert(current@.dom().contains(y0)) by {
            assert(cks.contains(y0));
            assert(cks.to_set().contains(y0));
        }
        let differs = match known.get(ck[j].as_str()) {
            Some(old_fp) => match current.get(ck[j].as_str()) {
                Some(new_fp) => !str_eq(old_fp.as_str(), new_fp.as_str()),
                None => false,
            },
            None => false,
        };
        assert(differs == changed_ids(kv, cv).contains(y0));
        if differs {
            let ghost prev = string_views(changed@);
            changed.push(ck[j].clone());
            proof {
                let now = string_views(changed@);
                assert(now =~= prev.push(y0));
                assert forall|a: int, b: int| 0 <= a < b < now.len() implies now[a] != now[b] by {
                    if b == now.len() - 1 {
                        let m = choose|m: int| 0 <= m < j && cks[m] == prev[a];
                        assert(now[a] == prev[a]);
                    } else {
                        assert(now[a] == prev[a] && now[b] == prev[b]);
                    }
                }
                assert forall|a: int| 0 <= a < now.len() implies exists|m: int| 0 <= m < j + 1 && cks[m] == #[trigger] now[a] by {
                    if a < prev.len() {
                        assert(now[a] == prev[a]);
                    }
                }
                assert forall|y: Seq<char>| now.contains(y) <==> (exists|m: int| 0 <= m < j + 1 && cks[m] == y) && changed_ids(kv, cv).contains(y) by {
                    if now.contains(y) {
                        let a = choose|a: int| 0 <= a < now.len() && now[a] == y;
                        if a < prev.len() {
                            assert(prev[a] == y);
                            assert(prev.contains(y));
                        }
                    }
                    if (exists|m: int| 0 <= m < j + 1 && cks[m] == y) && changed_ids(kv, cv).contains(y) {
                        let m = choose|m: int| 0 <= m < j + 1 && cks[m] == y;
                        if m < j {
                            assert(prev.contains(y));
                            let a = choose|a: int| 0 <= a < prev.len() && prev[a] == y;
                            assert(now[a] == y);
                        } else {
                            assert(now[now.len() - 1] == y);
                        }
                    }
                }
            }
        }
        j = j + 1;
    }
    proof {
        let cs = string_views(changed@);
        assert forall|y: Seq<char>| cs.to_set().contains(y) <==> changed_ids(kv, cv).contains(y) by {
            if changed_ids(kv, cv).contains(y) {
                assert(current@.dom().contains(y));
                assert(cks.to_set().contains(y));
                assert(cks.contains(y));
            }
        }
        assert(cs.to_set() =~= changed_ids(kv, cv));
    }
    let unchanged = same_fingerprints(known, current, &kk, &ck);
    FingerprintDiff { unchanged, removed, changed }
}

fn same_fingerprints(known: &StrMap<String>, current: &StrMap<String>, kk: &Vec<String>, ck: &Vec<String>) -> (r: bool)
    requires
        known.wf(),
        current.wf(),
        string_views(kk@).to_set() == known@.dom(),
        string_views(ck@).to_set() == current@.dom(),
    ensures
        r == (fingerprint_views(known@) == fingerprint_views(current@)),
{
    let ghost kv = fingerprint_views(known@);
    let ghost cv = fingerprint_views(current@);
    let ghost kks = string_views(kk@);
    if known.len() != current.len() {
        proof {
            if kv == cv {
                assert(kv.dom() == known@.dom());
                assert(cv.dom() == current@.dom());
                assert(known@.dom() =~= current@.dom());
            }
        }
        return false;
    }
    let mut i: usize = 0;
    while i < kk.len()
        invariant
            known.wf(),
            current.wf(),
            kv == fingerprint_views(known@),
            cv == fingerprint_views(current@),
            kks == string_views(kk@),
            kks.to_set() == known@.dom(),
            known@.dom().len() == current@.dom().len(),
            i <= kk@.len(),
            forall|m: int| 0 <= m < i ==> current@.dom().contains(#[trigger] kks[m]) && kv[kks[m]] == cv[kks[m]],
        decreases kk@.len() - i,
    {
        assert(kks[i as int] == kk@[i as int]@);
        let same = match current.get(kk[i].as_str()) {
            Some(new_fp) => match known.get(kk[i].as_str()) {
                Some(old_fp) => str_eq(old_fp.as_str(), new_fp.as_str()),
                None => false,
            },
            None => false,
        };
        if !same {
            proof {
                assert(kks.contains(kks[i as int]));
                assert(known@.dom().contains(kks[i as int]));
                if kv == cv {
                    assert(cv.dom().contains(kks[i as int]));
                    assert(kv[kks[i as int]] == cv[kks[i as int]]);
                }
            }
            return false;
        }
        i = i + 1;
    }
    proof {
        assert(known@.dom().subset_of(current@.dom())) by {
            assert forall|y: Seq<char>| known@.dom().contains(y) implies current@.dom().contains(y) by {
                assert(kks.to_set().contains(y));
                let m = choose|m: int| 0 <= m < kks.len() && kks[m] == y;
            }
        }
        vstd::seq_lib::seq_to_set_is_finite(kks);
        vstd::seq_lib::seq_to_set_is_finite(string_views(ck@));
        vstd::set_lib::lemma_subset_equality(known@.dom(), current@.dom());
        assert forall|y: Seq<char>| kv.dom().contains(y) implies kv[y] == cv[y] by {
            assert(kks.to_set().contains(y));
            let m = choose|m: int| 0 <= m < kks.len() && kks[m] == y;
        }
        assert(kv =~= cv);
    }
    true
}

/// A safe add-on id names a directory inside the storage directory: it has no path
/// separator and is neither `.` nor `..`.
pub proof fn law_safe_id_stays_inside(id: Seq<char>)
    requires
        is_safe_addon_id_spec(id),
    ensures
        forall|i: int| 0 <= i < id.len() ==> #[trigger] id[i] != '/' && id[i] != '\\' && id[i] != '.',
        id != "."@,
        id != ".."@,
{
    assert forall|i: int| 0 <= i < id.len() implies #[trigger] id[i] != '/' && id[i] != '\\' && id[i] != '.' by {
        assert(is_id_char(id[i]));
    }
    reveal_strlit(".");
    reveal_strlit("..");
    if id == "."@ {
        assert(is_id_char(id[0]));
    }
    if id == ".."@ {
        assert(is_id_char(id[0]));
    }
}

/// A safe storage key names a file inside the add-on's storage directory: it has no path
/// separator.
pub proof fn law_safe_key_has_no_separator(key: Seq<char>)
    requires
        is_safe_storage_key_spec(key),
    ensures
        forall|i: int| 0 <= i < key.len() ==> #[trigger] key[i] != '/' && key[i] != '\\',
{
    assert forall|i: int| 0 <= i < key.len() implies #[trigger] key[i] != '/' && key[i] != '\\' by {
        assert(is_key_char(key[i]));
    }
}

/// Each add-on keeps its values apart: two different storage keys are stored in two
/// different files of the add-on's storage directory.
pub proof fn law_storage_keys_apart(k1: Seq<char>, k2: Seq<char>)
    requires
        k1 != k2,
    ensures
        k1 + ".json"@ != k2 + ".json"@,
{
    if k1 + ".json"@ == k2 + ".json"@ {
        let j = ".json"@;
        assert((k1 + j).len() == (k2 + j).len());
        assert(k1 =~= (k1 + j).subrange(0, k1.len() as int));
        assert(k2 =~= (k2 + j).subrange(0, k2.len() as int));
    }
}

/// The ids are in strictly increasing order.
pub open spec fn ids_increasing(s: Seq<(Seq<char>, int)>) -> bool {
    forall|i: int, j: int| 0 <= i < j < s.len() ==> seq_lt(s[i].0, s[j].0)
}

proof fn lemma_insert_by_id_members(s: Seq<(Seq<char>, int)>, x: (Seq<char>, int))
    ensures
        forall|k: int| 0 <= k < insert_by_id(s, x).len() ==> #[trigger] insert_by_id(s, x)[k] == x || s.contains(insert_by_id(s, x)[k]),
    decreases s.len(),
{
    lemma_insert_by_id_len(s, x);
    if s.len() > 0 && seq_lt(x.0, s.last().0) {
        let p = s.drop_last();
        lemma_insert_by_id_members(p, x);
        lemma_insert_by_id_len(p, x);
        let r = insert_by_id(p, x);
        assert forall|k: int| 0 <= k < insert_by_id(s, x).len() implies #[trigger] insert_by_id(s, x)[k] == x || s.contains(insert_by_id(s, x)[k]) by {
            if k < r.len() {
                assert(insert_by_id(s, x)[k] == r[k]);
                if r[k] != x {
                    let m = choose|m: int| 0 <= m < p.len() && p[m] == r[k];
                    assert(s[m] == p[m]);
                }
            } else {
                assert(insert_by_id(s, x)[k] == s[s.len() - 1]);
            }
        }
    } else {
        assert forall|k: int| 0 <= k < insert_by_id(s, x).len() implies #[trigger] insert_by_id(s, x)[k] == x || s.contains(insert_by_id(s, x)[k]) by {
            if k < s.len() {
                assert(insert_by_id(s, x)[k] == s[k]);
            }
        }
    }
}

proof fn lemma_insert_by_id_sorted(s: Seq<(Seq<char>, int)>, x: (Seq<char>, int))
    requires
        ids_increasing(s),
        forall|k: int| 0 <= k < s.len() ==> (#[trigger] s[k]).0 != x.0,
    ensures
        ids_increasing(insert_by_id(s, x)),
    decreases s.len(),
{
    lemma_insert_by_id_len(s, x);
    if s.len() > 0 && seq_lt(x.0, s.last().0) {
        let p = s.drop_last();
        assert forall|k: int| 0 <= k < p.len() implies (#[trigger] p[k]).0 != x.0 by {
            assert(p[k] == s[k]);
        }
        lemma_insert_by_id_sorted(p, x);
        lemma_insert_by_id_members(p, x);
        lemma_insert_by_id_len(p, x);
        let r = insert_by_id(p, x);
        let t = r.push(s.last());
        assert forall|i: int, j: int| 0 <= i < j < t.len() implies seq_lt(t[i].0, t[j].0) by {
            if j < r.len() {
                assert(t[i] == r[i] && t[j] == r[j]);
            } else {
                assert(t[i] == r[i]);
                if r[i] != x {
                    let m = choose|m: int| 0 <= m < p.len() && p[m] == r[i];
                    assert(p[m] == s[m]);
                    assert(seq_lt(s[m].0, s[s.len() - 1].0));
                }
            }
        }
    } else {
        let t = s.push(x);
        assert forall|i: int, j: int| 0 <= i < j < t.len() implies seq_lt(t[i].0, t[j].0) by {
            if j < s.len() {
                assert(t[i] == s[i] && t[j] == s[j]);
            } else {
                assert(t[i] == s[i]);
                let last = s[s.len() - 1];
                assert(!seq_lt(x.0, last.0));
                assert(last.0 != x.0);
                lemma_seq_lt_total(x.0, last.0);
                if i < s.len() - 1 {
                    lemma_seq_lt_transitive(s[i].0, last.0, x.0);
                }
            }
        }
    }
}

proof fn lemma_sort_by_id_members(ids: Seq<Seq<char>>)
    ensures
        forall|k: int| 0 <= k < sort_by_id(ids).len() ==> 0 <= (#[trigger] sort_by_id(ids)[k]).1 < ids.len()
            && sort_by_id(ids)[k].0 == ids[sort_by_id(ids)[k].1],
    decreases ids.len(),
{
    lemma_sort_by_id_len(ids);
    if ids.len() > 0 {
        let p = ids.drop_last();
        lemma_sort_by_id_members(p);
        let x = (ids.last(), ids.len() - 1);
        lemma_insert_by_id_members(sort_by_id(p), x);
        assert forall|k: int| 0 <= k < sort_by_id(ids).len() implies 0 <= (#[trigger] sort_by_id(ids)[k]).1 < ids.len()
            && sort_by_id(ids)[k].0 == ids[sort_by_id(ids)[k].1] by {
            let e = sort_by_id(ids)[k];
            if e != x {
                let m = choose|m: int| 0 <= m < sort_by_id(p).len() && sort_by_id(p)[m] == e;
                assert(ids[e.1] == p[e.1]);
            }
        }
    }
}

/// Add-ons whose ids are all different are listed in strictly increasing order of id.
pub proof fn law_addons_sorted_by_id(ids: Seq<Seq<char>>)
    requires
        first_duplicate(ids) is None,
    ensures
        ids_increasing(sort_by_id(ids)),
    decreases ids.len(),
{
    if ids.len() > 0 {
        let p = ids.drop_last();
        assert(first_duplicate(p) is None);
        law_addons_sorted_by_id(p);
        lemma_sort_by_id_members(p);
        let sp = sort_by_id(p);
        assert(!p.contains(ids.last()));
        assert forall|k: int| 0 <= k < sp.len() implies (#[trigger] sp[k]).0 != ids.last() by {
            assert(sp[k].0 == p[sp[k].1]);
        }
        lemma_insert_by_id_sorted(sp, (ids.last(), ids.len() - 1));
    }
}

/// Finds the add-on with the given id among the ids of the add-ons found: the first with
/// that id, or the error naming the id.
pub fn find_addon(ids: &Vec<String>, addon_id: &str) -> (r: Result<usize, String>)
    ensures
        match crate::startup::position_of(string_views(ids@), addon_id@) {
            Some(i) => r matches Ok(j) && j == i,
            None => r matches Err(e) && e@ == "Runtime addon not found: "@ + addon_id@,
        },
{
    match crate::startup::sequence_position(ids, addon_id) {
        Some(i) => Ok(i),
        None => Err(crate::startup::prefixed("Runtime addon not found: ", addon_id)),
    }
}

/// The view of a text result.
pub open spec fn text_result_view(r: Result<String, String>) -> Result<Seq<char>, Seq<char>> {
    match r {
        Ok(s) => Ok(s@),
        Err(e) => Err(e@),
    }
}

/// What an add-on backend's run gives back (the sidecar JSON-RPC protocol): when the
/// process failed, its trimmed standard error, or `Addon backend exited with status` and
/// the status when that is empty; else, by the JSON of its trimmed standard output, the
/// parse error, the JSON text of `error` as the error, or the JSON text of `result`
/// (`null` when there is none).
pub open spec fn sidecar_outcome_spec(success: bool, status: Seq<char>, stdout: Seq<u8>, stderr: Seq<u8>) -> Result<
    Seq<char>,
    Seq<char>,
> {
    if !success {
        let e = trim(crate::git::lossy(stderr));
        if e.len() == 0 {
            Err("Addon backend exited with status "@ + status)
        } else {
            Err(e)
        }
    } else {
        match crate::json::spec_json_reply(trim(crate::git::lossy(stdout))) {
            Err(m) => Err("Addon backend returned invalid JSON: "@ + m),
            Ok(reply) => match reply.1 {
                Some(e) => Err(e),
                None => match reply.2 {
                    Some(r) => Ok(r),
                    None => Ok("null"@),
                },
            },
        }
    }
}

/// The reply of an add-on backend's run, from its outcome (`out`) and the text of its exit
/// status (see `sidecar_outcome_spec`): the JSON text of the result, or the error.
pub fn sidecar_outcome(out: &crate::git::CommandOutput, status: &str) -> (r: Result<String, String>)
    ensures
        text_result_view(r) == sidecar_outcome_spec(out.success, status@, out.stdout@, out.stderr@),
{
    if !out.success {
        let e = trim_str(crate::git::utf8_lossy(out.stderr.as_slice()).as_str());
        if e.as_str().is_empty() {
            return Err(crate::startup::prefixed("Addon backend exited with status ", status));
        }
        return Err(e);
    }
    let text = trim_str(crate::git::utf8_lossy(out.stdout.as_slice()).as_str());
    match crate::json::json_reply(text.as_str()) {
        Err(m) => Err(crate::startup::prefixed("Addon backend returned invalid JSON: ", m.as_str())),
        Ok(reply) => match reply.error {
            Some(e) => Err(e),
            None => match reply.result {
                Some(r) => Ok(r),
                None => Ok("null".to_owned()),
            },
        },
    }
}

/// What a stored value reads as: `null` when nothing is stored (`None`), else the JSON text
/// of the stored text, or `Failed to parse addon storage value: ` and the parser's message.
pub open spec fn storage_reply_spec(data: Option<Seq<char>>) -> Result<Seq<char>, Seq<char>> {
    match data {
        None => Ok("null"@),
        Some(d) => match crate::json::spec_json_reply(d) {
            Ok(reply) => Ok(reply.0),
            Err(m) => Err("Failed to parse addon storage value: "@ + m),
        },
    }
}

/// Reads a stored value (see `storage_reply_spec`): the file's text, `None` when there is
/// no file.
pub fn storage_reply(data: Option<&str>) -> (r: Result<String, String>)
    ensures
        text_result_view(r) == storage_reply_spec(match data {
            Some(d) => Some(d@),
            None => None,
        }),
{
    match data {
        None => Ok("null".to_owned()),
        Some(d) => match crate::json::json_reply(d) {
            Ok(reply) => Ok(reply.text),
            Err(m) => Err(crate::startup::prefixed("Failed to parse addon storage value: ", m.as_str())),
        },
    }
}

} // verus!
