//! Lyrics: the LRC parser, the conversion of plain lyrics, the choice between lyrics
//! sources, the query addresses of those sources, and the cache of fetched lyrics.
use crate::strmap::StrMap;
use crate::text::{
    chars_of, find_char, first_index_of, lemma_first_index_of, lemma_split_nonempty, lines_range,
    lines_spec, parse_u64_range, parse_u64_spec, seqs, split_range, split_spec, string_of,
    string_of_range, trim, trim_bounds, utf8_width, char_utf8_width, decimal, push_decimal,
    push_str_chars, percent_encode, url_encode, byte_len, lemma_byte_len_ge, lemma_byte_len_prefix,
};
use vstd::utf8::encode_utf8;
use vstd::prelude::*;

verus! {

/// One timed line of lyrics.
#[derive(Debug)]
pub struct LyricLine {
    pub time_ms: u64,
    pub text: String,
}

impl View for LyricLine {
    type V = (u64, Seq<char>);

    open spec fn view(&self) -> (u64, Seq<char>) {
        (self.time_ms, self.text@)
    }
}

impl Clone for LyricLine {
    fn clone(&self) -> (r: Self)
        ensures
            r@ == self@,
    {
        LyricLine { time_ms: self.time_ms, text: self.text.clone() }
    }
}

/// The views of a sequence of lyric lines.
pub open spec fn line_views(v: Seq<LyricLine>) -> Seq<(u64, Seq<char>)> {
    v.map_values(|l: LyricLine| l@)
}

/// Lyrics of one song: its lines, where they came from, and the song's length if known.
#[derive(Debug)]
pub struct Lyrics {
    pub lines: Vec<LyricLine>,
    pub source: String,
    pub duration_ms: Option<u64>,
}

/// The abstract value of lyrics: lines, source, duration.
pub type LyricsView = (Seq<(u64, Seq<char>)>, Seq<char>, Option<u64>);

impl View for Lyrics {
    type V = LyricsView;

    open spec fn view(&self) -> LyricsView {
        (line_views(self.lines@), self.source@, self.duration_ms)
    }
}

fn clone_lines(v: &Vec<LyricLine>) -> (r: Vec<LyricLine>)
    ensures
        line_views(r@) == line_views(v@),
{
    let mut out: Vec<LyricLine> = Vec::new();
    let mut i: usize = 0;
    while i < v.len()
        invariant
            i <= v@.len(),
            line_views(out@) == line_views(v@).take(i as int),
        decreases v@.len() - i,
    {
        let l = v[i].clone();
        let ghost prev = line_views(out@);
        out.push(l);
        assert(line_views(out@) =~= prev.push(v@[i as int]@));
        assert(line_views(v@).take(i + 1) =~= line_views(v@).take(i as int).push(v@[i as int]@));
        i = i + 1;
    }
    assert(line_views(v@).take(v@.len() as int) =~= line_views(v@));
    out
}

impl Clone for Lyrics {
    fn clone(&self) -> (r: Self)
        ensures
            r@ == self@,
    {
        Lyrics {
            lines: clone_lines(&self.lines),
            source: self.source.clone(),
            duration_ms: self.duration_ms,
        }
    }
}

/// The view of optional lyrics.
pub open spec fn opt_lyrics_view(o: Option<Lyrics>) -> Option<LyricsView> {
    match o {
        Some(l) => Some(l@),
        None => None,
    }
}

/// The byte length of `v[lo..hi]`, or 4 when it is 4 or more.
fn byte_len_capped(v: &[char], lo: usize, hi: usize) -> (r: usize)
    requires
        lo <= hi <= v@.len(),
    ensures
        r == (if byte_len(v@.subrange(lo as int, hi as int)) >= 4 {
            4
        } else {
            byte_len(v@.subrange(lo as int, hi as int))
        }),
{
    let mut n: usize = 0;
    let mut k = lo;
    assert(v@.subrange(lo as int, lo as int) =~= Seq::<char>::empty());
    while k < hi
        invariant
            lo <= k <= hi <= v@.len(),
            n == byte_len(v@.subrange(lo as int, k as int)),
            n < 4,
        decreases hi - k,
    {
        let ghost t = v@.subrange(lo as int, k + 1);
        assert(t.drop_last() =~= v@.subrange(lo as int, k as int));
        n = n + char_utf8_width(v[k]);
        if n >= 4 {
            proof {
                lemma_byte_len_prefix(v@.subrange(lo as int, hi as int), (k + 1 - lo) as int);
                assert(v@.subrange(lo as int, hi as int).subrange(0, k + 1 - lo) =~= t);
            }
            return 4;
        }
        k = k + 1;
    }
    n
}

/// The milliseconds a fraction of seconds adds, read by its length in bytes: one digit
/// counts tenths, two hundredths, three thousandths, any other length nothing. `None` when a fraction of length 1 to 3 is not a number.
pub open spec fn fraction_ms(frac: Seq<char>) -> Option<int> {
    let n = byte_len(frac);
    if n == 1 {
        match parse_u64_spec(frac) {
            Some(v) => Some(v * 100),
            None => None,
        }
    } else if n == 2 {
        match parse_u64_spec(frac) {
            Some(v) => Some(v * 10),
            None => None,
        }
    } else if n == 3 {
        match parse_u64_spec(frac) {
            Some(v) => Some(v as int),
            None => None,
        }
    } else {
        Some(0)
    }
}

/// The time in milliseconds an LRC time tag `mm:ss`, `mm:ss.x`, `mm:ss.xx` or `mm:ss.xxx`
/// stands for, or `None` when it is not one.
pub open spec fn parse_timestamp_spec(tag: Seq<char>) -> Option<int> {
    let parts = split_spec(tag, ':');
    if parts.len() != 2 {
        None
    } else {
        match parse_u64_spec(parts[0]) {
            None => None,
            Some(mins) => {
                let sp = split_spec(parts[1], '.');
                match parse_u64_spec(sp[0]) {
                    None => None,
                    Some(secs) => {
                        let ms = if sp.len() > 1 {
                            fraction_ms(sp[1])
                        } else {
                            Some(0)
                        };
                        match ms {
                            None => None,
                            Some(ms) => Some(mins * 60000 + secs * 1000 + ms),
                        }
                    },
                }
            },
        }
    }
}

/// The time of the tag fits in a `u64`.
pub open spec fn timestamp_fits(tag: Seq<char>) -> bool {
    match parse_timestamp_spec(tag) {
        Some(v) => v <= u64::MAX,
        None => true,
    }
}

/// The time the tag `v[lo..hi]` stands for, in a width where it cannot overflow.
fn timestamp_value(v: &[char], lo: usize, hi: usize) -> (r: Option<u128>)
    requires
        lo <= hi <= v@.len(),
    ensures
        r == match parse_timestamp_spec(v@.subrange(lo as int, hi as int)) {
            Some(t) => Some(t as u128),
            None => None,
        },
        r matches Some(t) ==> t as int == parse_timestamp_spec(v@.subrange(lo as int, hi as int))->0,
{
    let ghost tag = v@.subrange(lo as int, hi as int);
    let parts = split_range(v, lo, hi, ':');
    if parts.len() != 2 {
        return None;
    }
    assert(seqs(parts@)[0] == parts@[0]@ && seqs(parts@)[1] == parts@[1]@);
    let p0 = &parts[0];
    let p1 = &parts[1];
    assert(p0@.subrange(0, p0@.len() as int) =~= p0@);
    assert(p1@.subrange(0, p1@.len() as int) =~= p1@);
    let mins = match parse_u64_range(p0, 0, p0.len()) {
        Some(m) => m,
        None => return None,
    };
    let sp = split_range(p1, 0, p1.len(), '.');
    proof {
        lemma_split_nonempty(p1@, '.');
    }
    assert(seqs(sp@)[0] == sp@[0]@);
    let s0 = &sp[0];
    assert(s0@.subrange(0, s0@.len() as int) =~= s0@);
    let secs = match parse_u64_range(s0, 0, s0.len()) {
        Some(s) => s,
        None => return None,
    };
    let mut ms: u64 = 0;
    if sp.len() > 1 {
        assert(seqs(sp@)[1] == sp@[1]@);
        let f = &sp[1];
        assert(f@.subrange(0, f@.len() as int) =~= f@);
        let n = byte_len_capped(f, 0, f.len());
        if n == 1 || n == 2 || n == 3 {
            let val = match parse_u64_range(f, 0, f.len()) {
                Some(x) => x,
                None => return None,
            };
            proof {
                lemma_byte_len_ge(f@);
                lemma_small_value(f@, n as int);
            }
            ms = if n == 1 {
                val * 100
            } else if n == 2 {
                val * 10
            } else {
                val
            };
        }
    }
    let total: u128 = (mins as u128) * 60000 + (secs as u128) * 1000 + (ms as u128);
    assert(parse_timestamp_spec(tag) == Some(total as int));
    Some(total)
}

/// Reads the time tag `v[lo..hi]`.
pub fn parse_timestamp_range(v: &[char], lo: usize, hi: usize) -> (r: Option<u64>)
    requires
        lo <= hi <= v@.len(),
        timestamp_fits(v@.subrange(lo as int, hi as int)),
    ensures
        r == match parse_timestamp_spec(v@.subrange(lo as int, hi as int)) {
            Some(t) => Some(t as u64),
            None => None,
        },
{
    match timestamp_value(v, lo, hi) {
        Some(t) => Some(t as u64),
        None => None,
    }
}

proof fn lemma_small_value(f: Seq<char>, n: int)
    requires
        1 <= n <= 3,
        byte_len(f) == n,
        parse_u64_spec(f) is Some,
    ensures
        parse_u64_spec(f)->0 < 1000,
        n == 1 ==> parse_u64_spec(f)->0 < 10,
        n == 2 ==> parse_u64_spec(f)->0 < 100,
{
    lemma_byte_len_ge(f);
    let d = crate::text::unsigned_digits(f);
    assert(d.len() <= f.len());
    lemma_digits_small(d);
}

proof fn lemma_digits_small(d: Seq<char>)
    requires
        crate::text::all_digits(d),
    ensures
        d.len() <= 1 ==> crate::text::digits_value(d) < 10,
        d.len() <= 2 ==> crate::text::digits_value(d) < 100,
        d.len() <= 3 ==> crate::text::digits_value(d) < 1000,
    decreases d.len(),
{
    if d.len() > 0 {
        let p = d.drop_last();
        assert(crate::text::all_digits(p)) by {
            assert forall|i: int| 0 <= i < p.len() implies crate::text::is_digit(#[trigger] p[i]) by {
                assert(p[i] == d[i]);
            }
        }
        lemma_digits_small(p);
        assert(crate::text::is_digit(d[d.len() - 1]));
    }
}

/// Reads an LRC time tag such as `01:02.50` as milliseconds (62500 here).
pub fn parse_timestamp(tag: &str) -> (r: Option<u64>)
    requires
        timestamp_fits(tag@),
    ensures
        r == match parse_timestamp_spec(tag@) {
            Some(t) => Some(t as u64),
            None => None,
        },
{
    let v = chars_of(tag);
    assert(v@.subrange(0, v@.len() as int) =~= v@);
    parse_timestamp_range(&v, 0, v.len())
}


/// The leading time tags of a trimmed LRC line: the times of the tags that read as times,
/// and the text after the last tag. A `[` without a closing `]` ends the tags.
pub open spec fn lrc_tags(s: Seq<char>) -> (Seq<int>, Seq<char>)
    decreases s.len(),
{
    if s.len() > 0 && s[0] == '[' {
        match first_index_of(s, ']') {
            None => (Seq::empty(), s),
            Some(e) => {
                proof {
                    lemma_first_index_of(s, ']');
                }
                let rest = lrc_tags(s.subrange(e + 1, s.len() as int));
                match parse_timestamp_spec(s.subrange(1, e)) {
                    Some(t) => (seq![t] + rest.0, rest.1),
                    None => rest,
                }
            },
        }
    } else {
        (Seq::empty(), s)
    }
}

/// Every time tag of the line reads as a time that fits in a `u64`, or not as a time.
pub open spec fn lrc_tags_fit(s: Seq<char>) -> bool
    decreases s.len(),
{
    if s.len() > 0 && s[0] == '[' {
        match first_index_of(s, ']') {
            None => true,
            Some(e) => {
                proof {
                    lemma_first_index_of(s, ']');
                }
                timestamp_fits(s.subrange(1, e)) && lrc_tags_fit(s.subrange(e + 1, s.len() as int))
            },
        }
    } else {
        true
    }
}

/// The timed lines one LRC line gives: its text after the tags, once per time, in tag order;
/// nothing when that text is empty.
pub open spec fn lrc_line_entries(line: Seq<char>) -> Seq<(u64, Seq<char>)> {
    let t = trim(line);
    let (times, rest) = lrc_tags(t);
    let text = trim(rest);
    if t.len() == 0 || text.len() == 0 {
        Seq::empty()
    } else {
        times.map_values(|v: int| (v as u64, text))
    }
}

/// The timed lines of all LRC lines, in line order.
pub open spec fn lrc_entries(ls: Seq<Seq<char>>) -> Seq<(u64, Seq<char>)>
    decreases ls.len(),
{
    if ls.len() == 0 {
        Seq::empty()
    } else {
        lrc_entries(ls.drop_last()) + lrc_line_entries(ls.last())
    }
}

/// `x` inserted into `s` after every element whose time is not later than its own.
pub open spec fn insert_by_time(s: Seq<(u64, Seq<char>)>, x: (u64, Seq<char>)) -> Seq<(u64, Seq<char>)>
    decreases s.len(),
{
    if s.len() > 0 && x.0 < s.last().0 {
        insert_by_time(s.drop_last(), x).push(s.last())
    } else {
        s.push(x)
    }
}

/// The stable sort of `s` by time.
pub open spec fn sort_by_time(s: Seq<(u64, Seq<char>)>) -> Seq<(u64, Seq<char>)>
    decreases s.len(),
{
    if s.len() == 0 {
        s
    } else {
        insert_by_time(sort_by_time(s.drop_last()), s.last())
    }
}

/// The timed lines of an LRC text, ordered by time (lines of equal time in text order).
pub open spec fn parse_lrc_spec(lrc: Seq<char>) -> Seq<(u64, Seq<char>)> {
    sort_by_time(lrc_entries(lines_spec(lrc)))
}

/// Every time tag of the text fits in a `u64`.
pub open spec fn lrc_fits(lrc: Seq<char>) -> bool {
    forall|i: int| 0 <= i < lines_spec(lrc).len() ==> lrc_tags_fit(trim(#[trigger] lines_spec(lrc)[i]))
}

fn lrc_line(v: &Vec<char>) -> (r: Vec<LyricLine>)
    requires
        lrc_tags_fit(trim(v@)),
    ensures
        line_views(r@) == lrc_line_entries(v@),
{
    let (a, b) = trim_bounds(v, 0, v.len());
    assert(v@.subrange(0, v@.len() as int) =~= v@);
    let ghost t = v@.subrange(a as int, b as int);
    let mut times: Vec<u64> = Vec::new();
    let mut i = a;
    let mut out: Vec<LyricLine> = Vec::new();
    if a == b {
        assert(line_views(out@) =~= lrc_line_entries(v@));
        return out;
    }
    loop
        invariant
            a <= i <= b <= v@.len(),
            t == v@.subrange(a as int, b as int),
            lrc_tags_fit(v@.subrange(i as int, b as int)),
            lrc_tags(t).1 == lrc_tags(v@.subrange(i as int, b as int)).1,
            lrc_tags(t).0 == times@.map_values(|x: u64| x as int) + lrc_tags(v@.subrange(i as int, b as int)).0,
        ensures
            a <= i <= b,
            lrc_tags(t).1 == v@.subrange(i as int, b as int),
            lrc_tags(t).0 == times@.map_values(|x: u64| x as int),
        decreases b - i,
    {
        let ghost cur = v@.subrange(i as int, b as int);
        if !(i < b && v[i] == '[') {
            proof {
                if i < b {
                    assert(cur[0] == v@[i as int]);
                }
            }
            assert(times@.map_values(|x: u64| x as int) + Seq::<int>::empty() =~= times@.map_values(|x: u64| x as int));
            break;
        }
        assert(cur[0] == '[');
        let e = match find_char(v, i, b, ']') {
            Some(e) => e,
            None => {
                assert(times@.map_values(|x: u64| x as int) + Seq::<int>::empty() =~= times@.map_values(|x: u64| x as int));
                break;
            },
        };
        proof {
            lemma_first_index_of(cur, ']');
        }
        assert(cur.subrange(1, e as int) =~= v@.subrange(i + 1, i + e));
        assert(cur.subrange(e + 1, cur.len() as int) =~= v@.subrange(i + e + 1, b as int));
        let ts = parse_timestamp_range(v, i + 1, i + e);
        let ghost before = times@.map_values(|x: u64| x as int);
        match ts {
            Some(x) => {
                times.push(x);
                assert(times@.map_values(|x: u64| x as int) =~= before.push(x as int));
            },
            None => {},
        }
        i = i + e + 1;
    }
    let (c, d) = trim_bounds(v, i, b);
    if c == d {
        assert(line_views(out@) =~= lrc_line_entries(v@));
        return out;
    }
    let ghost text = v@.subrange(c as int, d as int);
    let mut k: usize = 0;
    while k < times.len()
        invariant
            k <= times@.len(),
            c <= d <= v@.len(),
            text == v@.subrange(c as int, d as int),
            line_views(out@) == times@.take(k as int).map_values(|x: u64| (x, text)),
        decreases times@.len() - k,
    {
        let line = LyricLine { time_ms: times[k], text: string_of_range(v, c, d) };
        let ghost prev = line_views(out@);
        out.push(line);
        assert(line_views(out@) =~= prev.push((times@[k as int], text)));
        assert(times@.take(k + 1).map_values(|x: u64| (x, text)) =~= times@.take(k as int).map_values(|x: u64| (x, text)).push((times@[k as int], text)));
        k = k + 1;
    }
    assert(times@.take(times@.len() as int) =~= times@);
    assert(line_views(out@) =~= lrc_line_entries(v@));
    out
}

/// Inserts `l` into lines sorted by time, after every line whose time is not later.
fn insert_line_by_time(out: &mut Vec<LyricLine>, l: LyricLine)
    ensures
        line_views(final(out)@) == insert_by_time(line_views(old(out)@), l@),
{
    let ghost sorted = line_views(out@);
    let ghost x = l@;
    out.push(l);
    let mut k = out.len() - 1;
    assert(line_views(out@) =~= sorted.push(x));
    assert(sorted.subrange(0, k as int) =~= sorted);
    assert(sorted.subrange(k as int, sorted.len() as int) =~= Seq::<(u64, Seq<char>)>::empty());
    assert(insert_by_time(sorted, x) =~= insert_by_time(sorted.subrange(0, k as int), x) + sorted.subrange(k as int, sorted.len() as int));
    while k > 0 && out[k].time_ms < out[k - 1].time_ms
        invariant
            0 <= k < out@.len(),
            out@.len() == sorted.len() + 1,
            out@[k as int]@ == x,
            line_views(out@).subrange(0, k as int) == sorted.subrange(0, k as int),
            line_views(out@).subrange(k + 1, out@.len() as int) == sorted.subrange(k as int, sorted.len() as int),
            insert_by_time(sorted, x) == insert_by_time(sorted.subrange(0, k as int), x) + sorted.subrange(k as int, sorted.len() as int),
        decreases k,
    {
        proof {
            let pre = sorted.subrange(0, k as int);
            assert(pre.last() == sorted[k - 1]);
            assert(line_views(out@)[k - 1] == sorted[k - 1]);
            assert(pre.drop_last() =~= sorted.subrange(0, k - 1));
            assert(insert_by_time(pre, x) == insert_by_time(pre.drop_last(), x).push(pre.last()));
            assert(sorted.subrange(k - 1, sorted.len() as int) =~= seq![sorted[k - 1]] + sorted.subrange(k as int, sorted.len() as int));
            assert(insert_by_time(sorted, x) =~= insert_by_time(sorted.subrange(0, k - 1), x) + sorted.subrange(k - 1, sorted.len() as int));
        }
        let moving = out.remove(k);
        out.insert(k - 1, moving);
        proof {
            assert(line_views(out@).subrange(0, k - 1) =~= sorted.subrange(0, k - 1));
            assert(line_views(out@).subrange(k as int, out@.len() as int) =~= sorted.subrange(k - 1, sorted.len() as int));
        }
        k = k - 1;
    }
    proof {
        let pre = sorted.subrange(0, k as int);
        if k > 0 {
            assert(pre.last() == sorted[k - 1]);
            assert(line_views(out@)[k - 1] == sorted[k - 1]);
        }
        assert(insert_by_time(pre, x) == pre.push(x));
        assert(line_views(out@) =~= pre.push(x) + sorted.subrange(k as int, sorted.len() as int));
    }
}

/// Parses LRC lyrics: each line's leading `[mm:ss.xx]` tags give the times at which the
/// text after them is shown; lines without text are skipped; the result is ordered by time,
/// lines of equal time keeping their order in the text.
pub fn parse_lrc(lrc: &str) -> (r: Vec<LyricLine>)
    requires
        lrc_fits(lrc@),
    ensures
        line_views(r@) == parse_lrc_spec(lrc@),
{
    let v = chars_of(lrc);
    assert(v@.subrange(0, v@.len() as int) =~= v@);
    let ls = lines_range(&v, 0, v.len());
    let ghost all = lines_spec(lrc@);
    let mut out: Vec<LyricLine> = Vec::new();
    let mut i: usize = 0;
    while i < ls.len()
        invariant
            seqs(ls@) == all,
            lrc_fits(lrc@),
            all == lines_spec(lrc@),
            i <= ls@.len(),
            line_views(out@) == sort_by_time(lrc_entries(all.take(i as int))),
        decreases ls@.len() - i,
    {
        assert(seqs(ls@)[i as int] == ls@[i as int]@);
        assert(lrc_tags_fit(trim(all[i as int])));
        let entries = lrc_line(&ls[i]);
        let ghost base = lrc_entries(all.take(i as int));
        let ghost ev = line_views(entries@);
        assert(all.take(i + 1).drop_last() =~= all.take(i as int));
        assert(all.take(i + 1).last() == all[i as int]);
        assert(lrc_entries(all.take(i + 1)) == base + ev);
        let mut j: usize = 0;
        while j < entries.len()
            invariant
                j <= entries@.len(),
                ev == line_views(entries@),
                line_views(out@) == sort_by_time(base + ev.take(j as int)),
            decreases entries@.len() - j,
        {
            let e = entries[j].clone();
            insert_line_by_time(&mut out, e);
            proof {
                let s1 = base + ev.take(j as int);
                let s2 = base + ev.take(j + 1);
                assert(s2.drop_last() =~= s1);
                assert(s2.last() == ev[j as int]);
            }
            j = j + 1;
        }
        assert(ev.take(ev.len() as int) =~= ev);
        i = i + 1;
    }
    assert(all.take(ls@.len() as int) =~= all);
    out
}

/// The timed lines of plain lyrics: each non-empty line at five seconds per line of the
/// text, empty lines counted.
pub open spec fn plain_entries(ls: Seq<Seq<char>>) -> Seq<(u64, Seq<char>)>
    decreases ls.len(),
{
    if ls.len() == 0 {
        Seq::empty()
    } else {
        plain_entries(ls.drop_last()) + (if ls.last().len() == 0 {
            Seq::empty()
        } else {
            seq![(((ls.len() - 1) * 5000) as u64, ls.last())]
        })
    }
}

/// The line times of plain lyrics fit in a `u64`.
pub open spec fn plain_fits(plain: Seq<char>) -> bool {
    lines_spec(plain).len() * 5000 <= u64::MAX
}

/// Times plain lyrics at five seconds per line, dropping empty lines.
pub fn plain_lyrics_lines(plain: &str) -> (r: Vec<LyricLine>)
    requires
        plain_fits(plain@),
    ensures
        line_views(r@) == plain_entries(lines_spec(plain@)),
{
    let v = chars_of(plain);
    assert(v@.subrange(0, v@.len() as int) =~= v@);
    let ls = lines_range(&v, 0, v.len());
    let ghost all = lines_spec(plain@);
    let mut out: Vec<LyricLine> = Vec::new();
    let mut i: usize = 0;
    while i < ls.len()
        invariant
            seqs(ls@) == all,
            all.len() * 5000 <= u64::MAX,
            i <= ls@.len(),
            line_views(out@) == plain_entries(all.take(i as int)),
        decreases ls@.len() - i,
    {
        assert(seqs(ls@)[i as int] == ls@[i as int]@);
        assert(all.take(i + 1).drop_last() =~= all.take(i as int));
        assert(all.take(i + 1).last() == all[i as int]);
        let l = &ls[i];
        let t: u64 = (i as u64) * 5000;
        let ghost prev = line_views(out@);
        if l.len() > 0 {
            out.push(LyricLine { time_ms: t, text: string_of(l.as_slice()) });
            assert(line_views(out@) =~= prev + seq![(t, all[i as int])]);
        } else {
            assert(line_views(out@) =~= prev + Seq::<(u64, Seq<char>)>::empty());
        }
        i = i + 1;
    }
    assert(all.take(ls@.len() as int) =~= all);
    out
}

/// Lyrics from the first source, whose LRC text is given, with the song length it gave:
/// `None` when the text holds no timed line.
pub fn lyrics_from_netease(lrc_text: &str, duration_ms: Option<u64>) -> (r: Option<Lyrics>)
    requires
        lrc_fits(lrc_text@),
    ensures
        opt_lyrics_view(r) == (if parse_lrc_spec(lrc_text@).len() == 0 {
            None
        } else {
            Some((parse_lrc_spec(lrc_text@), "netease"@, duration_ms))
        }),
{
    let lines = parse_lrc(lrc_text);
    if lines.len() == 0 {
        None
    } else {
        Some(Lyrics { lines, source: "netease".to_owned(), duration_ms })
    }
}

/// One search result of the second source: the song length, and synced (LRC) and plain
/// lyrics where it has them.
#[derive(Debug)]
pub struct LrclibItem {
    pub duration_ms: Option<u64>,
    pub synced_lyrics: Option<String>,
    pub plain_lyrics: Option<String>,
}

/// The abstract value of a search result.
pub type LrclibItemView = (Option<u64>, Option<Seq<char>>, Option<Seq<char>>);

impl View for LrclibItem {
    type V = LrclibItemView;

    open spec fn view(&self) -> LrclibItemView {
        (
            self.duration_ms,
            match self.synced_lyrics {
                Some(s) => Some(s@),
                None => None,
            },
            match self.plain_lyrics {
                Some(s) => Some(s@),
                None => None,
            },
        )
    }
}

/// The views of a sequence of search results.
pub open spec fn item_views(v: Seq<LrclibItem>) -> Seq<LrclibItemView> {
    v.map_values(|x: LrclibItem| x@)
}

/// The synced lyrics of every result are within the parser's limits, and so are the
/// plain ones.
pub open spec fn items_fit(items: Seq<LrclibItemView>) -> bool {
    forall|i: int|
        0 <= i < items.len() ==> {
            &&& (#[trigger] items[i]).1 matches Some(s) ==> lrc_fits(s)
            &&& items[i].2 matches Some(p) ==> plain_fits(p)
        }
}

/// The lyrics the search results give: the first result, in order, whose synced lyrics
/// hold a timed line, or else whose plain lyrics hold a non-empty line; synced lyrics are
/// preferred within one result.
pub open spec fn lrclib_choice(items: Seq<LrclibItemView>) -> Option<LyricsView>
    decreases items.len(),
{
    if items.len() == 0 {
        None
    } else {
        let it = items[0];
        let synced = match it.1 {
            Some(s) => parse_lrc_spec(s),
            None => Seq::empty(),
        };
        let plain = match it.2 {
            Some(p) => plain_entries(lines_spec(p)),
            None => Seq::empty(),
        };
        if synced.len() > 0 {
            Some((synced, "lrclib"@, it.0))
        } else if plain.len() > 0 {
            Some((plain, "lrclib"@, it.0))
        } else {
            lrclib_choice(items.drop_first())
        }
    }
}

/// Of the search results, the first one with lyrics decides: when its synced lyrics hold a
/// timed line, the lyrics are exactly those parsed lines, even when it also has plain
/// lyrics; otherwise its non-empty plain lines; the duration is that result's; a result
/// with neither is passed over.
pub proof fn law_lrclib_prefers_synced(first: LrclibItemView, rest: Seq<LrclibItemView>)
    ensures
        ({
            let items = seq![first] + rest;
            let synced = match first.1 {
                Some(s) => parse_lrc_spec(s),
                None => Seq::empty(),
            };
            let plain = match first.2 {
                Some(p) => plain_entries(lines_spec(p)),
                None => Seq::empty(),
            };
            &&& synced.len() > 0 ==> lrclib_choice(items) == Some((synced, "lrclib"@, first.0))
            &&& synced.len() == 0 && plain.len() > 0 ==> lrclib_choice(items) == Some((plain, "lrclib"@, first.0))
            &&& synced.len() == 0 && plain.len() == 0 ==> lrclib_choice(items) == lrclib_choice(rest)
        }),
{
    let items = seq![first] + rest;
    assert(items[0] == first);
    assert(items.drop_first() =~= rest);
}

/// Picks the lyrics the second source's search results give (see `lrclib_choice`).
pub fn lyrics_from_lrclib(items: &Vec<LrclibItem>) -> (r: Option<Lyrics>)
    requires
        items_fit(item_views(items@)),
    ensures
        opt_lyrics_view(r) == lrclib_choice(item_views(items@)),
{
    let ghost all = item_views(items@);
    assert(all.subrange(0, all.len() as int) =~= all);
    let mut i: usize = 0;
    while i < items.len()
        invariant
            all == item_views(items@),
            items_fit(all),
            i <= items@.len(),
            lrclib_choice(all) == lrclib_choice(all.subrange(i as int, all.len() as int)),
        decreases items@.len() - i,
    {
        let ghost rest = all.subrange(i as int, all.len() as int);
        assert(rest[0] == items@[i as int]@);
        assert(rest.drop_first() =~= all.subrange(i + 1, all.len() as int));
        assert(all[i as int] == items@[i as int]@);
        let item = &items[i];
        let mut synced_lines: Vec<LyricLine> = Vec::new();
        match &item.synced_lyrics {
            Some(s) => {
                synced_lines = parse_lrc(s.as_str());
            },
            None => {},
        }
        if synced_lines.len() > 0 {
            return Some(Lyrics { lines: synced_lines, source: "lrclib".to_owned(), duration_ms: item.duration_ms });
        }
        let mut plain_lines: Vec<LyricLine> = Vec::new();
        match &item.plain_lyrics {
            Some(p) => {
                plain_lines = plain_lyrics_lines(p.as_str());
            },
            None => {},
        }
        if plain_lines.len() > 0 {
            return Some(Lyrics { lines: plain_lines, source: "lrclib".to_owned(), duration_ms: item.duration_ms });
        }
        i = i + 1;
    }
    assert(all.subrange(i as int, all.len() as int) =~= Seq::<LrclibItemView>::empty());
    None
}

/// The decimal numeral of a signed integer.
pub open spec fn signed_decimal(n: int) -> Seq<char> {
    if n < 0 {
        seq!['-'] + decimal((-n) as nat)
    } else {
        decimal(n as nat)
    }
}

fn push_signed_decimal(out: &mut Vec<char>, n: i64)
    ensures
        final(out)@ == old(out)@ + signed_decimal(n as int),
{
    if n < 0 {
        out.push('-');
        let m: u64 = (-(n as i128)) as u64;
        push_decimal(out, m);
        assert(final(out)@ =~= old(out)@ + signed_decimal(n as int));
    } else {
        push_decimal(out, n as u64);
    }
}

/// The search query address of the first source for a song.
pub open spec fn netease_search_url_spec(title: Seq<char>, artist: Seq<char>) -> Seq<char> {
    "https://music.163.com/api/search/get?s="@ + percent_encode(encode_utf8(title + seq![' '] + artist))
        + "&type=1&limit=1"@
}

/// Builds the search query address of the first source for "title artist".
pub fn netease_search_url(title: &str, artist: &str) -> (r: String)
    ensures
        r@ == netease_search_url_spec(title@, artist@),
{
    let mut q: Vec<char> = Vec::new();
    push_str_chars(&mut q, title);
    q.push(' ');
    push_str_chars(&mut q, artist);
    let query = string_of(q.as_slice());
    assert(query@ =~= title@ + seq![' '] + artist@);
    let enc = url_encode(query.as_str());
    let mut out: Vec<char> = Vec::new();
    push_str_chars(&mut out, "https://music.163.com/api/search/get?s=");
    push_str_chars(&mut out, enc.as_str());
    push_str_chars(&mut out, "&type=1&limit=1");
    string_of(out.as_slice())
}

/// The lyrics query address of the first source for a song id.
pub open spec fn netease_lyric_url_spec(song_id: int) -> Seq<char> {
    "https://music.163.com/api/song/lyric?id="@ + signed_decimal(song_id) + "&lv=1&kv=1&tv=-1"@
}

/// Builds the lyrics query address of the first source for a song id.
pub fn netease_lyric_url(song_id: i64) -> (r: String)
    ensures
        r@ == netease_lyric_url_spec(song_id as int),
{
    let mut out: Vec<char> = Vec::new();
    push_str_chars(&mut out, "https://music.163.com/api/song/lyric?id=");
    push_signed_decimal(&mut out, song_id);
    push_str_chars(&mut out, "&lv=1&kv=1&tv=-1");
    string_of(out.as_slice())
}

/// The search query address of the second source.
pub open spec fn lrclib_search_url_spec(title: Seq<char>, artist: Seq<char>, album: Seq<char>) -> Seq<char> {
    "https://lrclib.net/api/search?track_name="@ + percent_encode(encode_utf8(title)) + "&artist_name="@
        + percent_encode(encode_utf8(artist)) + "&album_name="@ + percent_encode(encode_utf8(album))
}

/// Builds the search query address of the second source for a track, artist and album.
pub fn lrclib_search_url(title: &str, artist: &str, album: &str) -> (r: String)
    ensures
        r@ == lrclib_search_url_spec(title@, artist@, album@),
{
    let t = url_encode(title);
    let a = url_encode(artist);
    let b = url_encode(album);
    let mut out: Vec<char> = Vec::new();
    push_str_chars(&mut out, "https://lrclib.net/api/search?track_name=");
    push_str_chars(&mut out, t.as_str());
    push_str_chars(&mut out, "&artist_name=");
    push_str_chars(&mut out, a.as_str());
    push_str_chars(&mut out, "&album_name=");
    push_str_chars(&mut out, b.as_str());
    string_of(out.as_slice())
}

/// The cache key of a song: its title, `-`, its artist.
pub open spec fn cache_key_spec(title: Seq<char>, artist: Seq<char>) -> Seq<char> {
    title + seq!['-'] + artist
}

/// Builds the cache key of a song.
pub fn lyrics_cache_key(title: &str, artist: &str) -> (r: String)
    ensures
        r@ == cache_key_spec(title@, artist@),
{
    let mut out: Vec<char> = Vec::new();
    push_str_chars(&mut out, title);
    out.push('-');
    push_str_chars(&mut out, artist);
    let r = string_of(out.as_slice());
    assert(r@ =~= cache_key_spec(title@, artist@));
    r
}

fn clone_opt_lyrics(o: &Option<Lyrics>) -> (r: Option<Lyrics>)
    ensures
        opt_lyrics_view(r) == opt_lyrics_view(*o),
{
    match o {
        Some(l) => Some(l.clone()),
        None => None,
    }
}

/// Lyrics fetched before, by cache key; `None` records that a song has no lyrics.
pub struct LyricsCache {
    entries: StrMap<Option<Lyrics>>,
}

impl LyricsCache {
    #[verifier::type_invariant]
    spec fn inv(&self) -> bool {
        self.entries.wf()
    }

    /// The cached entries, by key.
    pub closed spec fn view(&self) -> Map<Seq<char>, Option<LyricsView>> {
        Map::new(
            |k: Seq<char>| self.entries@.dom().contains(k),
            |k: Seq<char>| opt_lyrics_view(self.entries@[k]),
        )
    }

    /// An empty cache.
    pub fn new() -> (c: Self)
        ensures
            c.view() == Map::<Seq<char>, Option<LyricsView>>::empty(),
    {
        let c = LyricsCache { entries: StrMap::new() };
        assert(c.view() =~= Map::<Seq<char>, Option<LyricsView>>::empty());
        c
    }

    /// A copy of the entry cached under `key`, if any.
    pub fn get(&self, key: &str) -> (r: Option<Option<Lyrics>>)
        ensures
            match r {
                Some(o) => self.view().dom().contains(key@) && opt_lyrics_view(o) == self.view()[key@],
                None => !self.view().dom().contains(key@),
            },
    {
        proof {
            use_type_invariant(self);
        }
        match self.entries.get(key) {
            Some(o) => Some(clone_opt_lyrics(o)),
            None => None,
        }
    }

    /// Caches `lyrics` under `key`, replacing an earlier entry.
    pub fn insert(&mut self, key: String, lyrics: Option<Lyrics>)
        ensures
            final(self).view() == old(self).view().insert(key@, opt_lyrics_view(lyrics)),
    {
        proof {
            use_type_invariant(&*self);
        }
        let ghost k = key@;
        let ghost lv = opt_lyrics_view(lyrics);
        let ghost before = self.view();
        let mut entries = StrMap::new();
        std::mem::swap(&mut entries, &mut self.entries);
        entries.insert(key, lyrics);
        self.entries = entries;
        assert(self.view() =~= before.insert(k, lv));
    }
}

/// What to do for the lyrics of a song: nothing without a title, answer from the cache,
/// or fetch them and cache them under the key.
#[derive(Debug)]
pub enum LyricsLookup {
    NoTitle,
    Cached(Option<Lyrics>),
    Fetch(String),
}

/// Decides how the lyrics of a song are found.
pub fn lookup_lyrics(cache: &LyricsCache, title: &str, artist: &str) -> (r: LyricsLookup)
    ensures
        title@.len() == 0 ==> r is NoTitle,
        title@.len() > 0 && cache.view().dom().contains(cache_key_spec(title@, artist@)) ==> (r matches LyricsLookup::Cached(o)
            && opt_lyrics_view(o) == cache.view()[cache_key_spec(title@, artist@)]),
        title@.len() > 0 && !cache.view().dom().contains(cache_key_spec(title@, artist@)) ==> (r matches LyricsLookup::Fetch(k)
            && k@ == cache_key_spec(title@, artist@)),
{
    if title.is_empty() {
        return LyricsLookup::NoTitle;
    }
    let key = lyrics_cache_key(title, artist);
    match cache.get(key.as_str()) {
        Some(o) => LyricsLookup::Cached(o),
        None => LyricsLookup::Fetch(key),
    }
}

/// Ends a fetch of lyrics: NetEase's lyrics when it found some, else LRCLIB's (asked only
/// then), cached under the key, and returned.
pub fn finish_fetch(cache: &mut LyricsCache, key: String, netease: Option<Lyrics>, lrclib: Option<Lyrics>) -> (r:
    Option<Lyrics>)
    ensures
        opt_lyrics_view(r) == (match netease {
            Some(_) => opt_lyrics_view(netease),
            None => opt_lyrics_view(lrclib),
        }),
        final(cache).view() == old(cache).view().insert(key@, opt_lyrics_view(r)),
{
    let result = match netease {
        Some(l) => Some(l),
        None => lrclib,
    };
    let copy = clone_opt_lyrics(&result);
    cache.insert(key, copy);
    result
}

/// The lines are in time order.
pub open spec fn time_sorted(s: Seq<(u64, Seq<char>)>) -> bool {
    forall|i: int, j: int| 0 <= i < j < s.len() ==> s[i].0 <= s[j].0
}

proof fn lemma_insert_by_time_bound(s: Seq<(u64, Seq<char>)>, x: (u64, Seq<char>), b: u64)
    requires
        forall|i: int| 0 <= i < s.len() ==> s[i].0 <= b,
        x.0 <= b,
    ensures
        insert_by_time(s, x).len() == s.len() + 1,
        forall|i: int| 0 <= i < insert_by_time(s, x).len() ==> (#[trigger] insert_by_time(s, x)[i]).0 <= b,
    decreases s.len(),
{
    if s.len() > 0 && x.0 < s.last().0 {
        lemma_insert_by_time_bound(s.drop_last(), x, b);
        let r = insert_by_time(s.drop_last(), x);
        assert forall|i: int| 0 <= i < insert_by_time(s, x).len() implies (#[trigger] insert_by_time(s, x)[i]).0 <= b by {
            if i < r.len() {
                assert(insert_by_time(s, x)[i] == r[i]);
            }
        }
    }
}

proof fn lemma_insert_by_time_sorted(s: Seq<(u64, Seq<char>)>, x: (u64, Seq<char>))
    requires
        time_sorted(s),
    ensures
        time_sorted(insert_by_time(s, x)),
    decreases s.len(),
{
    if s.len() > 0 && x.0 < s.last().0 {
        let p = s.drop_last();
        assert(time_sorted(p));
        lemma_insert_by_time_sorted(p, x);
        lemma_insert_by_time_bound(p, x, s.last().0);
        let r = insert_by_time(p, x);
        let t = r.push(s.last());
        assert forall|i: int, j: int| 0 <= i < j < t.len() implies t[i].0 <= t[j].0 by {
            if j < r.len() {
                assert(t[i] == r[i] && t[j] == r[j]);
            } else {
                assert(t[i] == r[i]);
            }
        }
    } else {
        let t = s.push(x);
        assert forall|i: int, j: int| 0 <= i < j < t.len() implies t[i].0 <= t[j].0 by {
            if j < s.len() {
                assert(t[i] == s[i] && t[j] == s[j]);
            } else if s.len() > 0 {
                assert(t[i] == s[i]);
                assert(s[i].0 <= s.last().0);
            }
        }
    }
}

proof fn lemma_sort_by_time_sorted(s: Seq<(u64, Seq<char>)>)
    ensures
        time_sorted(sort_by_time(s)),
    decreases s.len(),
{
    if s.len() > 0 {
        lemma_sort_by_time_sorted(s.drop_last());
        lemma_insert_by_time_sorted(sort_by_time(s.drop_last()), s.last());
    }
}

/// The lines of parsed LRC lyrics come in time order.
pub proof fn law_lrc_in_time_order(lrc: Seq<char>)
    ensures
        time_sorted(parse_lrc_spec(lrc)),
{
    lemma_sort_by_time_sorted(lrc_entries(lines_spec(lrc)));
}

/// Lyrics cached under a key are what the cache gives back for that key.
pub proof fn law_cache_read_after_write(c: Map<Seq<char>, Option<LyricsView>>, key: Seq<char>, l: Option<LyricsView>)
    ensures
        c.insert(key, l).dom().contains(key),
        c.insert(key, l)[key] == l,
{
}

/// The cache after the inserts `ops` (key and lyrics, in order), from `c`.
pub open spec fn cache_after(c: Map<Seq<char>, Option<LyricsView>>, ops: Seq<(Seq<char>, Option<LyricsView>)>) -> Map<
    Seq<char>,
    Option<LyricsView>,
>
    decreases ops.len(),
{
    if ops.len() == 0 {
        c
    } else {
        cache_after(c, ops.drop_last()).insert(ops.last().0, ops.last().1)
    }
}

/// The lyrics of the last insert under `k` among `ops`, if any.
pub open spec fn last_insert(ops: Seq<(Seq<char>, Option<LyricsView>)>, k: Seq<char>) -> Option<Option<LyricsView>>
    decreases ops.len(),
{
    if ops.len() == 0 {
        None
    } else if ops.last().0 == k {
        Some(ops.last().1)
    } else {
        last_insert(ops.drop_last(), k)
    }
}

/// After any sequence of inserts into a new cache, a key gives back the lyrics of its last
/// insert (a stored `None` included), and a key never inserted is not there.
pub proof fn law_cache_last_insert_wins(ops: Seq<(Seq<char>, Option<LyricsView>)>, k: Seq<char>)
    ensures
        cache_after(Map::empty(), ops).dom().contains(k) == last_insert(ops, k) is Some,
        last_insert(ops, k) matches Some(l) ==> cache_after(Map::empty(), ops)[k] == l,
    decreases ops.len(),
{
    if ops.len() > 0 {
        law_cache_last_insert_wins(ops.drop_last(), k);
    }
}

fn line_tags_fit(v: &Vec<char>) -> (r: bool)
    ensures
        r == lrc_tags_fit(trim(v@)),
{
    let (a, b) = trim_bounds(v, 0, v.len());
    assert(v@.subrange(0, v@.len() as int) =~= v@);
    let mut i = a;
    loop
        invariant
            a <= i <= b <= v@.len(),
            lrc_tags_fit(trim(v@)) == lrc_tags_fit(v@.subrange(i as int, b as int)),
        decreases b - i,
    {
        let ghost cur = v@.subrange(i as int, b as int);
        if !(i < b && v[i] == '[') {
            proof {
                if i < b {
                    assert(cur[0] == v@[i as int]);
                }
            }
            return true;
        }
        assert(cur[0] == '[');
        let e = match find_char(v, i, b, ']') {
            Some(e) => e,
            None => {
                return true;
            },
        };
        proof {
            lemma_first_index_of(cur, ']');
        }
        assert(cur.subrange(1, e as int) =~= v@.subrange(i + 1, i + e));
        assert(cur.subrange(e + 1, cur.len() as int) =~= v@.subrange(i + e + 1, b as int));
        match timestamp_value(v, i + 1, i + e) {
            Some(t) => {
                if t > 0xffff_ffff_ffff_ffffu128 {
                    return false;
                }
            },
            None => {},
        }
        i = i + e + 1;
    }
}

/// Whether every time tag of LRC lyrics fits in a `u64` (see `lrc_fits`), which
/// `parse_lrc` asks of its input.
pub fn lrc_within_limits(lrc: &str) -> (r: bool)
    ensures
        r == lrc_fits(lrc@),
{
    let v = chars_of(lrc);
    assert(v@.subrange(0, v@.len() as int) =~= v@);
    let ls = lines_range(&v, 0, v.len());
    let ghost all = lines_spec(lrc@);
    let mut i: usize = 0;
    while i < ls.len()
        invariant
            seqs(ls@) == all,
            all == lines_spec(lrc@),
            i <= ls@.len(),
            forall|j: int| 0 <= j < i ==> lrc_tags_fit(trim(#[trigger] all[j])),
        decreases ls@.len() - i,
    {
        assert(seqs(ls@)[i as int] == ls@[i as int]@);
        if !line_tags_fit(&ls[i]) {
            assert(!lrc_tags_fit(trim(all[i as int])));
            return false;
        }
        i = i + 1;
    }
    true
}

/// Whether plain lyrics are short enough for their line times to fit in a `u64` (see
/// `plain_fits`), which `plain_lyrics_lines` asks of its input.
pub fn plain_within_limits(plain: &str) -> (r: bool)
    ensures
        r == plain_fits(plain@),
{
    let v = chars_of(plain);
    assert(v@.subrange(0, v@.len() as int) =~= v@);
    let ls = lines_range(&v, 0, v.len());
    assert(seqs(ls@).len() == ls@.len());
    (ls.len() as u128) * 5000 <= 0xffff_ffff_ffff_ffffu128
}

} // verus!
