use vstd::prelude::*;
use crate::text::{
    chars_of, contains, find_char, find_infix, first_index_of, has_infix, has_prefix,
    is_first_occurrence, last_index_of, lemma_first_index_of, lemma_first_occurrence_unique,
    lemma_last_index_of, occurs_at, rfind_char, slice_chars, split_chars, split_on, starts_with,
    string_of, trim, trim_chars,
};
use crate::types::{channel_views, Channel, ChannelView};

verus! {

broadcast use vstd::seq_lib::group_seq_properties;

// ── Reading a subscription (M3U or TXT) ───────────────────────────

/// The channels read so far, and the name of an `#EXTINF` line that waits
/// for its URL.
pub ghost struct ParseState {
    pub channels: Seq<ChannelView>,
    pub pending: Option<Seq<char>>,
}

/// One line of a subscription, trimmed:
/// - `#EXTINF...,Name` announces the name (after the last comma) of the URL
///   on a following line;
/// - another line starting with `#`, or an empty line, changes nothing;
/// - a URL (holding "://") after an announced name gives that channel;
/// - `name,url` gives a channel when the URL holds "://" and the name is not
///   empty (so that `group,#genre#` lines are skipped).
pub open spec fn parse_step(st: ParseState, raw: Seq<char>) -> ParseState {
    let l = trim(raw);
    if starts_with(l, "#EXTINF"@) {
        if l.contains(',') {
            ParseState {
                channels: st.channels,
                pending: Some(trim(l.skip(last_index_of(l, ',') + 1))),
            }
        } else {
            ParseState { channels: st.channels, pending: None }
        }
    } else if l.len() == 0 || l[0] == '#' {
        st
    } else if contains(l, "://"@) && st.pending is Some {
        ParseState {
            channels: st.channels.push(ChannelView { name: st.pending->0, url: l }),
            pending: None,
        }
    } else if l.contains(',') {
        let i = first_index_of(l, ',');
        let name = trim(l.take(i));
        let url = trim(l.skip(i + 1));
        if contains(url, "://"@) && name.len() > 0 {
            ParseState {
                channels: st.channels.push(ChannelView { name, url }),
                pending: None,
            }
        } else {
            ParseState { channels: st.channels, pending: None }
        }
    } else {
        st
    }
}

pub open spec fn parse_lines(lines: Seq<Seq<char>>) -> ParseState
    decreases lines.len(),
{
    if lines.len() == 0 {
        ParseState { channels: Seq::empty(), pending: None }
    } else {
        parse_step(parse_lines(lines.drop_last()), lines.last())
    }
}

/// The channels of a subscription file.
pub open spec fn subscription_channels(text: Seq<char>) -> Seq<ChannelView> {
    parse_lines(split_on(text, '\n')).channels
}

fn parse_one(
    out: &mut Vec<Channel>,
    pending: &mut Option<Vec<char>>,
    raw: &Vec<char>,
    extinf: &Vec<char>,
    sep: &Vec<char>,
)
    requires
        extinf@ == "#EXTINF"@,
        sep@ == "://"@,
    ensures
        (ParseState {
            channels: channel_views(final(out)@),
            pending: match *final(pending) {
                Some(p) => Some(p@),
                None => None,
            },
        }) == parse_step(
            ParseState {
                channels: channel_views(old(out)@),
                pending: match *old(pending) {
                    Some(p) => Some(p@),
                    None => None,
                },
            },
            raw@,
        ),
{
    let l = trim_chars(raw);
    if has_prefix(&l, extinf) {
        match rfind_char(&l, ',') {
            Some(c) => {
                proof {
                    lemma_last_index_of(l@, ',', c as int);
                }
                let name = trim_chars(&slice_chars(&l, c + 1, l.len()));
                assert(l@.skip(c + 1) =~= l@.subrange(c + 1, l.len() as int));
                *pending = Some(name);
            },
            None => {
                *pending = None;
            },
        }
        return;
    }
    if l.len() == 0 || l[0] == '#' {
        return;
    }
    if has_infix(&l, sep) && pending.is_some() {
        let name = pending.take().unwrap();
        let ghost before = channel_views(out@);
        let c = Channel { name: string_of(&name), url: string_of(&l) };
        out.push(c);
        assert(channel_views(out@) =~= before.push(c@));
        return;
    }
    match find_char(&l, ',') {
        Some(i) => {
            proof {
                lemma_first_index_of(l@, ',', i as int);
            }
            assert(l@.take(i as int) =~= l@.subrange(0, i as int));
            assert(l@.skip(i + 1) =~= l@.subrange(i + 1, l.len() as int));
            let name = trim_chars(&slice_chars(&l, 0, i));
            let url = trim_chars(&slice_chars(&l, i + 1, l.len()));
            if has_infix(&url, sep) && name.len() > 0 {
                let ghost before = channel_views(out@);
                let c = Channel { name: string_of(&name), url: string_of(&url) };
                out.push(c);
                assert(channel_views(out@) =~= before.push(c@));
            }
            *pending = None;
        },
        None => {
            proof {
                lemma_first_index_of(l@, ',', l.len() as int);
            }
        },
    }
}

/// Reads the channels of a subscription file, M3U or TXT.
pub fn parse_subscription(text: &str) -> (r: Vec<Channel>)
    ensures
        channel_views(r@) == subscription_channels(text@),
{
    let lines = split_chars(&chars_of(text), '\n');
    let ghost lv = lines@.map_values(|l: Vec<char>| l@);
    let extinf = chars_of("#EXTINF");
    let sep = chars_of("://");
    let mut out: Vec<Channel> = Vec::new();
    let mut pending: Option<Vec<char>> = None;
    let mut i: usize = 0;
    assert(lv.take(0) =~= Seq::<Seq<char>>::empty());
    assert(channel_views(out@) =~= Seq::<ChannelView>::empty());
    while i < lines.len()
        invariant
            i <= lines.len() == lv.len(),
            lv == lines@.map_values(|l: Vec<char>| l@),
            extinf@ == "#EXTINF"@,
            sep@ == "://"@,
            (ParseState {
                channels: channel_views(out@),
                pending: match pending {
                    Some(p) => Some(p@),
                    None => None,
                },
            }) == parse_lines(lv.take(i as int)),
        decreases lines.len() - i,
    {
        assert(lv.take(i + 1).drop_last() =~= lv.take(i as int));
        assert(lv.take(i + 1).last() == lines@[i as int]@);
        parse_one(&mut out, &mut pending, &lines[i], &extinf, &sep);
        i += 1;
    }
    assert(lv.take(lines.len() as int) =~= lv);
    out
}

// ── Resolution of an HLS master playlist ──────────────────────────

pub open spec fn is_digit(c: char) -> bool {
    '0' <= c <= '9'
}

/// The number of decimal digits that `s` starts with.
pub open spec fn digit_run(s: Seq<char>) -> nat
    decreases s.len(),
{
    if s.len() > 0 && is_digit(s[0]) {
        1 + digit_run(s.drop_first())
    } else {
        0
    }
}

/// The number that the decimal digits `s` write.
pub open spec fn decimal_value(s: Seq<char>) -> int
    decreases s.len(),
{
    if s.len() == 0 {
        0
    } else {
        decimal_value(s.drop_last()) * 10 + (s.last() as int - '0' as int)
    }
}

pub open spec fn capped(v: int) -> u32 {
    if v > u32::MAX {
        u32::MAX
    } else {
        v as u32
    }
}

/// The `RESOLUTION=WxH` attribute of a playlist line (its first one), with
/// numbers past `u32::MAX` counted as `u32::MAX`.
pub open spec fn resolution_in(l: Seq<char>) -> Option<(u32, u32)> {
    let key = "RESOLUTION="@;
    if !contains(l, key) {
        None
    } else {
        let rest = l.skip((choose|k: int| is_first_occurrence(l, key, k)) + key.len());
        let wl = digit_run(rest) as int;
        if wl == 0 || wl >= rest.len() || rest[wl] != 'x' {
            None
        } else {
            let rest2 = rest.skip(wl + 1);
            let hl = digit_run(rest2) as int;
            if hl == 0 {
                None
            } else {
                Some(
                    (capped(decimal_value(rest.take(wl))), capped(decimal_value(rest2.take(hl)))),
                )
            }
        }
    }
}

/// The tallest resolution that the `#EXT-X-STREAM-INF` lines announce (the
/// first of equal heights), or 0×0 when none announces one.
pub open spec fn best_resolution(lines: Seq<Seq<char>>) -> (u32, u32)
    decreases lines.len(),
{
    if lines.len() == 0 {
        (0u32, 0u32)
    } else {
        let prev = best_resolution(lines.drop_last());
        let l = trim(lines.last());
        if starts_with(l, "#EXT-X-STREAM-INF"@) {
            match resolution_in(l) {
                Some(r) => if r.1 > prev.1 {
                    r
                } else {
                    prev
                },
                None => prev,
            }
        } else {
            prev
        }
    }
}

pub open spec fn playlist_resolution_of(body: Seq<char>) -> (u32, u32) {
    best_resolution(split_on(body, '\n'))
}

/// The length of the run of digits at `v[from..]`, and the number they
/// write (capped at `u32::MAX`).
fn read_number(v: &Vec<char>, from: usize) -> (r: (usize, u32))
    requires
        from <= v.len(),
    ensures
        r.0 == digit_run(v@.skip(from as int)),
        from + r.0 <= v.len(),
        r.1 == capped(decimal_value(v@.skip(from as int).take(r.0 as int))),
{
    let ghost s = v@.skip(from as int);
    let mut i: usize = from;
    let mut acc: u32 = 0;
    assert(s.take(0) =~= Seq::<char>::empty());
    while i < v.len() && '0' <= v[i] && v[i] <= '9'
        invariant
            from <= i <= v.len(),
            s == v@.skip(from as int),
            forall|k: int| 0 <= k < i - from ==> is_digit(#[trigger] s[k]),
            acc == capped(decimal_value(s.take(i - from))),
        decreases v.len() - i,
    {
        let d: u64 = (v[i] as u32 - '0' as u32) as u64;
        let ghost prev = s.take(i - from);
        assert(s.take(i - from + 1).drop_last() =~= prev);
        assert(s.take(i - from + 1).last() == v@[i as int]);
        proof {
            lemma_decimal_value_nonneg(prev);
        }
        assert(d == v@[i as int] as int - '0' as int);
        assert(decimal_value(s.take(i - from + 1)) == decimal_value(prev) * 10 + d);
        let next: u64 = acc as u64 * 10 + d;
        if next > u32::MAX as u64 {
            acc = u32::MAX;
            assert(decimal_value(s.take(i - from + 1)) > u32::MAX) by (nonlinear_arith)
                requires
                    decimal_value(s.take(i - from + 1)) == decimal_value(prev) * 10 + d,
                    acc == u32::MAX,
                    decimal_value(prev) >= capped(decimal_value(prev)),
                    (capped(decimal_value(prev)) as int) * 10 + d > u32::MAX,
                    d >= 0,
            ;
        } else {
            assert(decimal_value(prev) <= u32::MAX);
            acc = next as u32;
        }
        i += 1;
    }
    proof {
        lemma_digit_run(s, (i - from) as int);
    }
    (i - from, acc)
}

fn resolution_of_line(l: &Vec<char>, key: &Vec<char>) -> (r: Option<(u32, u32)>)
    requires
        key@ == "RESOLUTION="@,
    ensures
        r == resolution_in(l@),
{
    let k = match find_infix(l, key) {
        Some(k) => k,
        None => return None,
    };
    proof {
        lemma_first_occurrence_unique(l@, key@, k as int);
    }
    assert(occurs_at(l@, key@, k as int));
    assert(k + key@.len() <= l@.len());
    assert(k + key.len() <= l.len());
    let start = k + key.len();
    let ghost rest = l@.skip(start as int);
    let (wl, w) = read_number(l, start);
    if wl == 0 || start + wl >= l.len() || l[start + wl] != 'x' {
        return None;
    }
    assert(rest[wl as int] == l@[start + wl]);
    assert(rest.skip(wl + 1) =~= l@.skip(start + wl + 1));
    let (hl, h) = read_number(l, start + wl + 1);
    if hl == 0 {
        return None;
    }
    Some((w, h))
}

/// The tallest resolution that an HLS master playlist announces in its
/// `#EXT-X-STREAM-INF` lines, or 0×0 when it announces none.
pub fn playlist_resolution(body: &str) -> (r: (u32, u32))
    ensures
        r == playlist_resolution_of(body@),
{
    let lines = split_chars(&chars_of(body), '\n');
    let ghost lv = lines@.map_values(|l: Vec<char>| l@);
    let key = chars_of("RESOLUTION=");
    let tag = chars_of("#EXT-X-STREAM-INF");
    let mut best: (u32, u32) = (0, 0);
    let mut i: usize = 0;
    assert(lv.take(0) =~= Seq::<Seq<char>>::empty());
    while i < lines.len()
        invariant
            i <= lines.len() == lv.len(),
            lv == lines@.map_values(|l: Vec<char>| l@),
            key@ == "RESOLUTION="@,
            tag@ == "#EXT-X-STREAM-INF"@,
            best == best_resolution(lv.take(i as int)),
        decreases lines.len() - i,
    {
        assert(lv.take(i + 1).drop_last() =~= lv.take(i as int));
        assert(lv.take(i + 1).last() == lines@[i as int]@);
        let l = trim_chars(&lines[i]);
        if has_prefix(&l, &tag) {
            match resolution_of_line(&l, &key) {
                Some(r) => {
                    if r.1 > best.1 {
                        best = r;
                    }
                },
                None => {},
            }
        }
        i += 1;
    }
    assert(lv.take(lines.len() as int) =~= lv);
    best
}

proof fn lemma_decimal_value_nonneg(s: Seq<char>)
    requires
        forall|k: int| 0 <= k < s.len() ==> is_digit(#[trigger] s[k]),
    ensures
        decimal_value(s) >= 0,
    decreases s.len(),
{
    if s.len() > 0 {
        lemma_decimal_value_nonneg(s.drop_last());
        assert(is_digit(s[s.len() - 1]));
    }
}

proof fn lemma_digit_run(s: Seq<char>, n: int)
    requires
        0 <= n <= s.len(),
        forall|k: int| 0 <= k < n ==> is_digit(#[trigger] s[k]),
        n == s.len() || !is_digit(s[n]),
    ensures
        digit_run(s) == n,
    decreases n,
{
    if n > 0 {
        lemma_digit_run(s.drop_first(), n - 1);
    }
}

} // verus!
