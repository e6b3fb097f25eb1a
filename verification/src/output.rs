use vstd::prelude::*;
use crate::config::{EPG_URL, LOGO_BASE_URL, SPEED_HIGH, SPEED_MID};
use crate::order::{lemma_sort_facts, sort_by_speed, sort_fastest_first, sorted_by_speed};
use crate::speedtest::{host_key, host_key_of};
use crate::text::{chars_of, contains, extend_chars, occurs_at, string_of};
use crate::types::{entry_views, Entry, EntryView, Speed};

verus! {

broadcast use vstd::seq_lib::group_seq_properties;

// ── Sources per channel ────────────────────────────────────────────

/// How many entries of `s` carry the channel `name`.
pub open spec fn count_channel(s: Seq<EntryView>, name: Seq<char>) -> nat
    decreases s.len(),
{
    if s.len() == 0 {
        0
    } else {
        count_channel(s.drop_last(), name) + if s.last().name == name {
            1nat
        } else {
            0nat
        }
    }
}

/// Some entry of `s` carries the channel of `e` from the host of `e`.
pub open spec fn same_channel_host(s: Seq<EntryView>, e: EntryView) -> bool {
    exists|i: int|
        0 <= i < s.len() && s[i].name == e.name && host_key_of(s[i].url) == host_key_of(e.url)
}

/// The entries of `s`, in order, that still fit: at most `n` per channel,
/// and one per host for each channel.
pub open spec fn limit_per_channel(s: Seq<EntryView>, n: nat) -> Seq<EntryView>
    decreases s.len(),
{
    if s.len() == 0 {
        Seq::<EntryView>::empty()
    } else {
        let prev = limit_per_channel(s.drop_last(), n);
        let e = s.last();
        if count_channel(prev, e.name) < n && !same_channel_host(prev, e) {
            prev.push(e)
        } else {
            prev
        }
    }
}

/// The entries written out: fastest first, at most `per_channel` per
/// channel, each from another host (the fastest of a host).
pub open spec fn published_entries(entries: Seq<EntryView>, per_channel: nat) -> Seq<EntryView> {
    limit_per_channel(sort_by_speed(entries), per_channel)
}

fn count_channel_exec(s: &Vec<Entry>, name: &String) -> (r: usize)
    ensures
        r == count_channel(entry_views(s@), name@),
{
    let ghost sv = entry_views(s@);
    let mut c: usize = 0;
    let mut i: usize = 0;
    assert(sv.take(0) =~= Seq::<EntryView>::empty());
    while i < s.len()
        invariant
            i <= s.len(),
            sv == entry_views(s@),
            c == count_channel(sv.take(i as int), name@),
            c <= i,
        decreases s.len() - i,
    {
        assert(sv.take(i + 1).drop_last() =~= sv.take(i as int));
        assert(sv.take(i + 1).last() == s@[i as int]@);
        if s[i].name == *name {
            c += 1;
        }
        i += 1;
    }
    assert(sv.take(s.len() as int) =~= sv);
    c
}

fn same_channel_host_exec(s: &Vec<Entry>, e: &Entry) -> (r: bool)
    ensures
        r == same_channel_host(entry_views(s@), e@),
{
    let hk = host_key(e.url.as_str());
    let mut i: usize = 0;
    while i < s.len()
        invariant
            i <= s.len(),
            hk@ == host_key_of(e.url@),
            forall|k: int|
                0 <= k < i ==> !(s@[k].name@ == e.name@ && host_key_of(s@[k].url@) == hk@),
        decreases s.len() - i,
    {
        if s[i].name == e.name {
            let other = host_key(s[i].url.as_str());
            if other == hk {
                assert(entry_views(s@)[i as int] == s@[i as int]@);
                return true;
            }
        }
        i += 1;
    }
    assert forall|k: int| 0 <= k < s.len() implies !(entry_views(s@)[k].name == e@.name
        && host_key_of(entry_views(s@)[k].url) == host_key_of(e@.url)) by {
        assert(entry_views(s@)[k] == s@[k]@);
    }
    false
}

/// The entries to publish, fastest first: at most `per_channel` sources
/// per channel, from distinct hosts.
pub fn select_published(entries: Vec<Entry>, per_channel: usize) -> (r: Vec<Entry>)
    ensures
        entry_views(r@) == published_entries(entry_views(entries@), per_channel as nat),
{
    let sorted = sort_fastest_first(entries);
    let ghost sv = entry_views(sorted@);
    let mut out: Vec<Entry> = Vec::new();
    let mut i: usize = 0;
    assert(sv.take(0) =~= Seq::<EntryView>::empty());
    while i < sorted.len()
        invariant
            i <= sorted.len(),
            sv == entry_views(sorted@),
            entry_views(out@) == limit_per_channel(sv.take(i as int), per_channel as nat),
        decreases sorted.len() - i,
    {
        assert(sv.take(i + 1).drop_last() =~= sv.take(i as int));
        assert(sv.take(i + 1).last() == sorted@[i as int]@);
        let c = count_channel_exec(&out, &sorted[i].name);
        if c < per_channel && !same_channel_host_exec(&out, &sorted[i]) {
            let ghost prev = entry_views(out@);
            out.push(sorted[i].duplicate());
            assert(entry_views(out@) =~= prev.push(sv[i as int]));
        }
        i += 1;
    }
    assert(sv.take(sorted.len() as int) =~= sv);
    out
}

proof fn lemma_limit(s: Seq<EntryView>, n: nat)
    ensures
        forall|x: EntryView| limit_per_channel(s, n).contains(x) ==> s.contains(x),
        forall|name: Seq<char>| count_channel(limit_per_channel(s, n), name) <= n,
        forall|i: int, j: int|
            0 <= i < j < limit_per_channel(s, n).len() && limit_per_channel(s, n)[i].name
                == limit_per_channel(s, n)[j].name ==> host_key_of(limit_per_channel(s, n)[i].url)
                != host_key_of(limit_per_channel(s, n)[j].url),
        sorted_by_speed(s) ==> sorted_by_speed(limit_per_channel(s, n)),
    decreases s.len(),
{
    if s.len() > 0 {
        let d = s.drop_last();
        let prev = limit_per_channel(d, n);
        let e = s.last();
        let out = limit_per_channel(s, n);
        lemma_limit(d, n);
        assert forall|x: EntryView| out.contains(x) implies s.contains(x) by {
            let m = choose|m: int| 0 <= m < out.len() && out[m] == x;
            if m < prev.len() {
                assert(out[m] == prev[m]);
                assert(prev.contains(x));
                assert(d.contains(x));
                let k = choose|k: int| 0 <= k < d.len() && d[k] == x;
                assert(d[k] == s[k]);
                assert(s[k] == x);
            } else {
                assert(s[s.len() - 1] == x);
            }
        }
        if count_channel(prev, e.name) < n && !same_channel_host(prev, e) {
            assert(out.drop_last() =~= prev);
            assert forall|name: Seq<char>| count_channel(out, name) <= n by {
                assert(count_channel(prev, name) <= n);
            }
            assert forall|i: int, j: int|
                0 <= i < j < out.len() && out[i].name == out[j].name implies host_key_of(
                out[i].url,
            ) != host_key_of(out[j].url) by {
                if j == prev.len() {
                    assert(out[i] == prev[i]);
                } else {
                    assert(out[i] == prev[i]);
                    assert(out[j] == prev[j]);
                }
            }
            if sorted_by_speed(s) {
                assert(sorted_by_speed(d));
                assert forall|i: int, j: int| 0 <= i < j < out.len() implies out[i].speed
                    >= out[j].speed by {
                    if j == prev.len() {
                        assert(out[i] == prev[i]);
                        assert(prev.contains(out[i]));
                        assert(d.contains(out[i]));
                        let k = choose|k: int| 0 <= k < d.len() && d[k] == out[i];
                        assert(d[k] == s[k]);
                        assert(s[k] == out[i]);
                    } else {
                        assert(out[i] == prev[i]);
                        assert(out[j] == prev[j]);
                    }
                }
            }
        }
    }
}

/// An entry is settled in a limited list when its channel and host are
/// already there, or its channel is full.
pub open spec fn settled(out: Seq<EntryView>, e: EntryView, n: nat) -> bool {
    same_channel_host(out, e) || count_channel(out, e.name) >= n
}

proof fn lemma_settled_grows(out: Seq<EntryView>, y: EntryView, e: EntryView, n: nat)
    requires
        settled(out, e, n),
    ensures
        settled(out.push(y), e, n),
{
    let o2 = out.push(y);
    assert(o2.drop_last() =~= out);
    if same_channel_host(out, e) {
        let i = choose|i: int|
            0 <= i < out.len() && out[i].name == e.name && host_key_of(out[i].url)
                == host_key_of(e.url);
        assert(o2[i] == out[i]);
    }
}

proof fn lemma_limit_settles(s: Seq<EntryView>, n: nat)
    ensures
        forall|k: int| 0 <= k < s.len() ==> settled(limit_per_channel(s, n), #[trigger] s[k], n),
    decreases s.len(),
{
    if s.len() > 0 {
        let d = s.drop_last();
        let y = s.last();
        let prev = limit_per_channel(d, n);
        let out = limit_per_channel(s, n);
        lemma_limit_settles(d, n);
        assert forall|k: int| 0 <= k < s.len() implies settled(out, #[trigger] s[k], n) by {
            if k < s.len() - 1 {
                assert(s[k] == d[k]);
                assert(settled(prev, d[k], n));
                if out != prev {
                    lemma_settled_grows(prev, y, s[k], n);
                }
            } else if out != prev {
                assert(out[prev.len() as int] == y);
            }
        }
    }
}

proof fn lemma_limit_fastest(s: Seq<EntryView>, n: nat)
    requires
        sorted_by_speed(s),
    ensures
        forall|e: EntryView, k: int|
            limit_per_channel(s, n).contains(e) && 0 <= k < s.len() && s[k].name == e.name
                && host_key_of(s[k].url) == host_key_of(e.url) ==> s[k].speed <= e.speed,
    decreases s.len(),
{
    if s.len() > 0 {
        let d = s.drop_last();
        let y = s.last();
        let prev = limit_per_channel(d, n);
        let out = limit_per_channel(s, n);
        assert(sorted_by_speed(d));
        lemma_limit_fastest(d, n);
        lemma_limit(d, n);
        lemma_limit_settles(d, n);
        assert forall|e: EntryView, k: int|
            out.contains(e) && 0 <= k < s.len() && s[k].name == e.name && host_key_of(s[k].url)
                == host_key_of(e.url) implies s[k].speed <= e.speed by {
            let m = choose|m: int| 0 <= m < out.len() && out[m] == e;
            if m < prev.len() {
                assert(out[m] == prev[m]);
                assert(prev.contains(e));
                assert(d.contains(e));
                let q = choose|q: int| 0 <= q < d.len() && d[q] == e;
                if k < s.len() - 1 {
                    assert(s[k] == d[k]);
                } else {
                    assert(s[q] == e);
                    assert(s[q].speed >= s[s.len() - 1].speed);
                }
            } else {
                assert(e == y);
                if k < s.len() - 1 {
                    assert(s[k] == d[k]);
                    assert(settled(prev, d[k], n));
                    if same_channel_host(prev, d[k]) {
                        let i = choose|i: int|
                            0 <= i < prev.len() && prev[i].name == d[k].name && host_key_of(
                                prev[i].url,
                            ) == host_key_of(d[k].url);
                        assert(same_channel_host(prev, y));
                    }
                }
            }
        }
    }
}

/// Of the sources of a channel on one host, the fastest is the one
/// published.
pub proof fn law_published_fastest_per_host(entries: Seq<EntryView>, per_channel: nat)
    ensures
        forall|e: EntryView, x: EntryView|
            published_entries(entries, per_channel).contains(e) && entries.contains(x) && x.name
                == e.name && host_key_of(x.url) == host_key_of(e.url) ==> x.speed <= e.speed,
{
    let sorted = sort_by_speed(entries);
    lemma_sort_facts(entries);
    lemma_limit_fastest(sorted, per_channel);
    assert forall|e: EntryView, x: EntryView|
        published_entries(entries, per_channel).contains(e) && entries.contains(x) && x.name
            == e.name && host_key_of(x.url) == host_key_of(e.url) implies x.speed <= e.speed by {
        assert(sorted.contains(x));
        let k = choose|k: int| 0 <= k < sorted.len() && sorted[k] == x;
        assert(sorted[k].name == e.name);
    }
}

/// The published entries come fastest first.
pub proof fn law_published_sorted(entries: Seq<EntryView>, per_channel: nat)
    ensures
        sorted_by_speed(published_entries(entries, per_channel)),
{
    lemma_sort_facts(entries);
    lemma_limit(sort_by_speed(entries), per_channel);
}

/// A channel is published at most `per_channel` times.
pub proof fn law_per_channel_limit(entries: Seq<EntryView>, per_channel: nat, name: Seq<char>)
    ensures
        count_channel(published_entries(entries, per_channel), name) <= per_channel,
{
    lemma_limit(sort_by_speed(entries), per_channel);
}

/// The sources of a channel come from distinct hosts.
pub proof fn law_per_channel_distinct_hosts(entries: Seq<EntryView>, per_channel: nat)
    ensures
        forall|i: int, j: int|
            0 <= i < j < published_entries(entries, per_channel).len() && published_entries(
                entries,
                per_channel,
            )[i].name == published_entries(entries, per_channel)[j].name ==> host_key_of(
                published_entries(entries, per_channel)[i].url,
            ) != host_key_of(published_entries(entries, per_channel)[j].url),
{
    lemma_limit(sort_by_speed(entries), per_channel);
}

/// Every published entry is one of the entries given.
pub proof fn law_published_from_input(entries: Seq<EntryView>, per_channel: nat)
    ensures
        forall|x: EntryView|
            published_entries(entries, per_channel).contains(x) ==> entries.contains(x),
{
    lemma_sort_facts(entries);
    lemma_limit(sort_by_speed(entries), per_channel);
}

// ── Writing the playlists ──────────────────────────────────────────

/// The speed tier under which an entry is grouped: fast (at least
/// `SPEED_HIGH`), normal (at least `SPEED_MID`) or slow.
pub open spec fn tier_of(speed: Speed) -> Seq<char> {
    if speed >= SPEED_HIGH {
        "高速"@
    } else if speed >= SPEED_MID {
        "普通"@
    } else {
        "低速"@
    }
}

pub fn speed_tier(speed: Speed) -> (r: &'static str)
    ensures
        r@ == tier_of(speed),
{
    if speed >= SPEED_HIGH {
        "高速"
    } else if speed >= SPEED_MID {
        "普通"
    } else {
        "低速"
    }
}

/// The two lines of an entry in the M3U8 playlist.
pub open spec fn m3u8_block(e: EntryView) -> Seq<char> {
    "#EXTINF:-1 tvg-name=\""@ + e.name + "\" tvg-logo=\""@ + LOGO_BASE_URL@ + e.name
        + ".png\" group-title=\""@ + tier_of(e.speed) + "\","@ + e.name + "\n"@ + e.url
        + "\n"@
}

pub open spec fn m3u8_body(s: Seq<EntryView>) -> Seq<char>
    decreases s.len(),
{
    if s.len() == 0 {
        Seq::<char>::empty()
    } else {
        m3u8_body(s.drop_last()) + m3u8_block(s.last())
    }
}

/// The M3U8 playlist of the entries, with the EPG address in its header.
pub open spec fn m3u8_text(s: Seq<EntryView>) -> Seq<char> {
    "#EXTM3U x-tvg-url=\""@ + EPG_URL@ + "\"\n"@ + m3u8_body(s)
}

/// The tail of an entry's M3U8 lines: its group, name and URL.
pub open spec fn m3u8_group_tail(e: EntryView, group: Seq<char>) -> Seq<char> {
    ".png\" group-title=\""@ + group + "\","@ + e.name + "\n"@ + e.url + "\n"@
}

proof fn lemma_contains_in_left(a: Seq<char>, b: Seq<char>, p: Seq<char>)
    requires
        contains(a, p),
    ensures
        contains(a + b, p),
{
    let i = choose|i: int| occurs_at(a, p, i);
    assert((a + b).subrange(i, i + p.len()) =~= a.subrange(i, i + p.len()));
    assert(occurs_at(a + b, p, i));
}

proof fn lemma_contains_in_right(a: Seq<char>, b: Seq<char>, p: Seq<char>)
    requires
        contains(b, p),
    ensures
        contains(a + b, p),
{
    let i = choose|i: int| occurs_at(b, p, i);
    assert((a + b).subrange(a.len() + i, a.len() + i + p.len()) =~= b.subrange(i, i + p.len()));
    assert(occurs_at(a + b, p, a.len() + i));
}

proof fn lemma_m3u8_body_groups(s: Seq<EntryView>, i: int)
    requires
        0 <= i < s.len(),
    ensures
        contains(m3u8_body(s), m3u8_group_tail(s[i], tier_of(s[i].speed))),
    decreases s.len(),
{
    let d = s.drop_last();
    if i < s.len() - 1 {
        assert(s[i] == d[i]);
        lemma_m3u8_body_groups(d, i);
        lemma_contains_in_left(m3u8_body(d), m3u8_block(s.last()), m3u8_group_tail(s[i], tier_of(s[i].speed)));
    } else {
        let e = s.last();
        let head = "#EXTINF:-1 tvg-name=\""@ + e.name + "\" tvg-logo=\""@ + LOGO_BASE_URL@ + e.name;
        let tail = m3u8_group_tail(e, tier_of(e.speed));
        assert(m3u8_block(e) =~= head + tail);
        assert((head + tail).subrange(head.len() as int, (head.len() + tail.len()) as int) =~= tail);
        assert(occurs_at(head + tail, tail, head.len() as int));
        lemma_contains_in_right(m3u8_body(d), m3u8_block(e), tail);
    }
}

/// In the M3U8 playlist every entry is grouped under the tier of its own
/// rate: 高速 at 5 MB/s (5 × 1048576 bytes per second) or more, 普通 at
/// 1 MB/s or more, else 低速. The text holds, for each entry, its group,
/// then its name and its URL.
pub proof fn law_m3u8_group_is_speed_tier(s: Seq<EntryView>)
    ensures
        forall|i: int|
            0 <= i < s.len() ==> contains(
                m3u8_text(s),
                m3u8_group_tail(
                    s[i],
                    if s[i].speed >= 5 * 1048576 {
                        "高速"@
                    } else if s[i].speed >= 1048576 {
                        "普通"@
                    } else {
                        "低速"@
                    },
                ),
            ),
{
    assert forall|i: int| 0 <= i < s.len() implies contains(
        m3u8_text(s),
        m3u8_group_tail(
            s[i],
            if s[i].speed >= 5 * 1048576 {
                "高速"@
            } else if s[i].speed >= 1048576 {
                "普通"@
            } else {
                "低速"@
            },
        ),
    ) by {
        lemma_m3u8_body_groups(s, i);
        lemma_contains_in_right(
            "#EXTM3U x-tvg-url=\""@ + EPG_URL@ + "\"\n"@,
            m3u8_body(s),
            m3u8_group_tail(s[i], tier_of(s[i].speed)),
        );
    }
}

/// The TXT line of an entry, after a `tier,#genre#` line where its tier
/// begins.
pub open spec fn txt_line(prev: Option<EntryView>, e: EntryView) -> Seq<char> {
    let head = match prev {
        Some(p) => if tier_of(p.speed) == tier_of(e.speed) {
            Seq::<char>::empty()
        } else {
            tier_of(e.speed) + ",#genre#\n"@
        },
        None => tier_of(e.speed) + ",#genre#\n"@,
    };
    head + e.name + ","@ + e.url + "\n"@
}

/// The TXT playlist of the entries.
pub open spec fn txt_text(s: Seq<EntryView>) -> Seq<char>
    decreases s.len(),
{
    if s.len() == 0 {
        Seq::<char>::empty()
    } else {
        let p = s.drop_last();
        txt_text(p) + txt_line(
            if p.len() == 0 {
                None
            } else {
                Some(p.last())
            },
            s.last(),
        )
    }
}

/// The TXT lines that open a tier: its `tier,#genre#` line, then the entry.
pub open spec fn txt_group_start(e: EntryView, group: Seq<char>) -> Seq<char> {
    group + ",#genre#\n"@ + e.name + ","@ + e.url + "\n"@
}

proof fn lemma_txt_group_starts(s: Seq<EntryView>, i: int)
    requires
        0 <= i < s.len(),
        i == 0 || tier_of(s[i - 1].speed) != tier_of(s[i].speed),
    ensures
        contains(txt_text(s), txt_group_start(s[i], tier_of(s[i].speed))),
    decreases s.len(),
{
    let d = s.drop_last();
    let prev = if d.len() == 0 {
        None
    } else {
        Some(d.last())
    };
    let line = txt_line(prev, s.last());
    assert(txt_text(s) == txt_text(d) + line);
    if i < s.len() - 1 {
        assert(s[i] == d[i]);
        if i > 0 {
            assert(s[i - 1] == d[i - 1]);
        }
        lemma_txt_group_starts(d, i);
        lemma_contains_in_left(txt_text(d), line, txt_group_start(s[i], tier_of(s[i].speed)));
    } else {
        let start = txt_group_start(s[i], tier_of(s[i].speed));
        if i > 0 {
            assert(d.last() == s[i - 1]);
        }
        assert(line =~= start);
        assert(line.subrange(0, line.len() as int) =~= line);
        assert(occurs_at(line, start, 0));
        lemma_contains_in_right(txt_text(d), line, start);
    }
}

/// In the TXT playlist every run of entries of one tier opens with that
/// tier's `tier,#genre#` line: the first entry, and each entry whose tier is
/// not that of the entry before it, comes right after the line of its own
/// tier (高速 at 5 MB/s or more, 普通 at 1 MB/s or more, else 低速), the
/// same tier its M3U8 group names.
pub proof fn law_txt_groups_by_speed_tier(s: Seq<EntryView>)
    ensures
        forall|i: int|
            #![trigger s[i]]
            0 <= i < s.len() && (i == 0 || tier_of(s[i - 1].speed) != tier_of(s[i].speed))
                ==> contains(
                txt_text(s),
                txt_group_start(
                    s[i],
                    if s[i].speed >= 5 * 1048576 {
                        "高速"@
                    } else if s[i].speed >= 1048576 {
                        "普通"@
                    } else {
                        "低速"@
                    },
                ),
            ),
{
    assert forall|i: int|
        #![trigger s[i]]
        0 <= i < s.len() && (i == 0 || tier_of(s[i - 1].speed) != tier_of(s[i].speed)) implies contains(
        txt_text(s),
        txt_group_start(
            s[i],
            if s[i].speed >= 5 * 1048576 {
                "高速"@
            } else if s[i].speed >= 1048576 {
                "普通"@
            } else {
                "低速"@
            },
        ),
    ) by {
        lemma_txt_group_starts(s, i);
    }
}

fn push_str(v: &mut Vec<char>, s: &str)
    ensures
        final(v)@ == old(v)@ + s@,
{
    extend_chars(v, &chars_of(s));
}

/// Writes the M3U8 playlist of the entries.
pub fn render_m3u8(entries: &Vec<Entry>) -> (r: String)
    ensures
        r@ == m3u8_text(entry_views(entries@)),
{
    let ghost ev = entry_views(entries@);
    let mut body: Vec<char> = Vec::new();
    let mut i: usize = 0;
    assert(ev.take(0) =~= Seq::<EntryView>::empty());
    while i < entries.len()
        invariant
            i <= entries.len(),
            ev == entry_views(entries@),
            body@ == m3u8_body(ev.take(i as int)),
        decreases entries.len() - i,
    {
        assert(ev.take(i + 1).drop_last() =~= ev.take(i as int));
        assert(ev.take(i + 1).last() == entries@[i as int]@);
        let e = &entries[i];
        let name = e.name.as_str();
        push_str(&mut body, "#EXTINF:-1 tvg-name=\"");
        push_str(&mut body, name);
        push_str(&mut body, "\" tvg-logo=\"");
        push_str(&mut body, LOGO_BASE_URL);
        push_str(&mut body, name);
        push_str(&mut body, ".png\" group-title=\"");
        push_str(&mut body, speed_tier(e.speed));
        push_str(&mut body, "\",");
        push_str(&mut body, name);
        push_str(&mut body, "\n");
        push_str(&mut body, e.url.as_str());
        push_str(&mut body, "\n");
        i += 1;
    }
    assert(ev.take(entries.len() as int) =~= ev);
    let mut out: Vec<char> = chars_of("#EXTM3U x-tvg-url=\"");
    push_str(&mut out, EPG_URL);
    push_str(&mut out, "\"\n");
    extend_chars(&mut out, &body);
    string_of(&out)
}

/// Writes the TXT playlist of the entries.
pub fn render_txt(entries: &Vec<Entry>) -> (r: String)
    ensures
        r@ == txt_text(entry_views(entries@)),
{
    let ghost ev = entry_views(entries@);
    let mut out: Vec<char> = Vec::new();
    let mut i: usize = 0;
    assert(ev.take(0) =~= Seq::<EntryView>::empty());
    while i < entries.len()
        invariant
            i <= entries.len(),
            ev == entry_views(entries@),
            out@ == txt_text(ev.take(i as int)),
        decreases entries.len() - i,
    {
        let ghost p = ev.take(i as int);
        assert(ev.take(i + 1).drop_last() =~= p);
        assert(ev.take(i + 1).last() == entries@[i as int]@);
        let e = &entries[i];
        let tier = speed_tier(e.speed);
        let new_tier = if i == 0 {
            true
        } else {
            assert(p.last() == entries@[i - 1]@);
            !crate::text::chars_equal(&chars_of(speed_tier(entries[i - 1].speed)), &chars_of(tier))
        };
        let ghost before = out@;
        if new_tier {
            push_str(&mut out, tier);
            push_str(&mut out, ",#genre#\n");
        } else {
            assert(before + Seq::<char>::empty() =~= before);
        }
        push_str(&mut out, e.name.as_str());
        push_str(&mut out, ",");
        push_str(&mut out, e.url.as_str());
        push_str(&mut out, "\n");
        assert(out@ =~= before + txt_line(
            if p.len() == 0 {
                None
            } else {
                Some(p.last())
            },
            ev[i as int],
        ));
        i += 1;
    }
    assert(ev.take(entries.len() as int) =~= ev);
    string_of(&out)
}

/// The playlists of a run: M3U8 and TXT, of the entries to publish.
pub fn build_playlists(entries: Vec<Entry>, per_channel: usize) -> (r: (String, String))
    ensures
        r.0@ == m3u8_text(published_entries(entry_views(entries@), per_channel as nat)),
        r.1@ == txt_text(published_entries(entry_views(entries@), per_channel as nat)),
{
    let published = select_published(entries, per_channel);
    (render_m3u8(&published), render_txt(&published))
}

} // verus!
