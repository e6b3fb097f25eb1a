use vstd::prelude::*;
use crate::patterns::{
    compile_pattern, first_match, regex_compiles, regex_first_match, regex_replace_first,
    replace_first,
};
use crate::speedtest::{classify_match_type, host_key, host_key_of, match_type_of, MatchType};
use crate::text::{
    chars_equal, chars_of, extend_chars, is_space, is_white_space, replace_all, replace_all_chars,
    split_chars, split_on, string_of, trim, trim_chars,
};
use crate::types::{
    channel_views, entry_views, Channel, ChannelView, Entry, EntryView, SourceResult, Speed,
};
use crate::urls::{parse_url, parsed_url, UrlParts, UrlView};

verus! {

broadcast use vstd::seq_lib::group_seq_properties;

// ── Channel names ──────────────────────────────────────────────────

/// A standard channel name, with the key by which names are matched to it.
pub struct NameAlias {
    pub alias: String,
    pub name: String,
}

pub open spec fn alias_views(s: Seq<NameAlias>) -> Seq<(Seq<char>, Seq<char>)> {
    s.map_values(|a: NameAlias| (a.alias@, a.name@))
}

/// `c` in upper case, for the ASCII letters.
pub open spec fn ascii_upper(c: char) -> char {
    if 'a' <= c <= 'z' {
        ((c as u32) - 32) as char
    } else {
        c
    }
}

/// The key by which channel names are matched: the name without white
/// space and `-`, ASCII letters in upper case ("cctv-1" and "CCTV 1" both
/// give "CCTV1").
pub open spec fn name_key(s: Seq<char>) -> Seq<char>
    decreases s.len(),
{
    if s.len() == 0 {
        Seq::<char>::empty()
    } else {
        let k = name_key(s.drop_last());
        let c = s.last();
        if is_white_space(c) || c == '-' {
            k
        } else {
            k.push(ascii_upper(c))
        }
    }
}

fn name_key_exec(s: &Vec<char>) -> (r: Vec<char>)
    ensures
        r@ == name_key(s@),
{
    let mut k: Vec<char> = Vec::new();
    let mut i: usize = 0;
    assert(s@.take(0) =~= Seq::<char>::empty());
    while i < s.len()
        invariant
            i <= s.len(),
            k@ == name_key(s@.take(i as int)),
        decreases s.len() - i,
    {
        assert(s@.take(i + 1).drop_last() =~= s@.take(i as int));
        assert(s@.take(i + 1).last() == s@[i as int]);
        let c = s[i];
        if !(is_space(c) || c == '-') {
            let u = if 'a' <= c && c <= 'z' {
                ((c as u32) - 32) as u8 as char
            } else {
                c
            };
            assert(u == ascii_upper(c));
            k.push(u);
        }
        i += 1;
    }
    assert(s@.take(s.len() as int) =~= s@);
    k
}

/// The name of the first entry of `aliases` whose key is `key`.
pub open spec fn lookup_alias(key: Seq<char>, aliases: Seq<(Seq<char>, Seq<char>)>) -> Option<
    Seq<char>,
>
    decreases aliases.len(),
{
    if aliases.len() == 0 {
        None
    } else if aliases[0].0 == key {
        Some(aliases[0].1)
    } else {
        lookup_alias(key, aliases.drop_first())
    }
}

/// The standard name of `name`: the standard name whose key is that of
/// `name`, else `name` itself.
pub open spec fn standard_name(name: Seq<char>, aliases: Seq<(Seq<char>, Seq<char>)>) -> Seq<char> {
    match lookup_alias(name_key(name), aliases) {
        Some(n) => n,
        None => name,
    }
}

pub fn map_to_standard_name(name: &str, aliases: &Vec<NameAlias>) -> (r: String)
    ensures
        r@ == standard_name(name@, alias_views(aliases@)),
{
    let ghost av = alias_views(aliases@);
    let n = chars_of(name);
    let key = name_key_exec(&n);
    let mut i: usize = 0;
    assert(av.skip(0) =~= av);
    while i < aliases.len()
        invariant
            i <= aliases.len(),
            n@ == name@,
            key@ == name_key(name@),
            av == alias_views(aliases@),
            lookup_alias(key@, av) == lookup_alias(key@, av.skip(i as int)),
        decreases aliases.len() - i,
    {
        assert(av.skip(i as int)[0] == (aliases@[i as int].alias@, aliases@[i as int].name@));
        assert(av.skip(i as int).drop_first() =~= av.skip(i + 1));
        if chars_equal(&chars_of(aliases[i].alias.as_str()), &key) {
            return aliases[i].name.clone();
        }
        i += 1;
    }
    string_of(&n)
}

/// The standard names of a channel list, one per line: each non-empty
/// trimmed line, keyed by its `name_key`.
pub open spec fn channel_list_alias(line: Seq<char>) -> Option<(Seq<char>, Seq<char>)> {
    let l = trim(line);
    if l.len() == 0 {
        None
    } else {
        Some((name_key(l), l))
    }
}

/// Reads a channel list (`channel_list.txt`).
pub fn parse_channel_list(text: &str) -> (r: Vec<NameAlias>)
    ensures
        alias_views(r@) == split_on(text@, '\n').filter_map(
            |l: Seq<char>| channel_list_alias(l),
        ),
{
    let lines = split_chars(&chars_of(text), '\n');
    let ghost lv = lines@.map_values(|l: Vec<char>| l@);
    let ghost f = |l: Seq<char>| channel_list_alias(l);
    let mut out: Vec<NameAlias> = Vec::new();
    let mut i: usize = 0;
    while i < lines.len()
        invariant
            i <= lines.len() == lv.len(),
            lv == lines@.map_values(|l: Vec<char>| l@),
            f == (|l: Seq<char>| channel_list_alias(l)),
            alias_views(out@) == lv.take(i as int).filter_map(f),
        decreases lines.len() - i,
    {
        proof {
            lv.lemma_filter_map_take_succ(f, i as int);
        }
        let l = trim_chars(&lines[i]);
        if l.len() > 0 {
            let a = NameAlias { alias: string_of(&name_key_exec(&l)), name: string_of(&l) };
            out.push(a);
            assert(alias_views(out@) =~= lv.take(i as int).filter_map(f) + seq![
                (a.alias@, a.name@),
            ]);
        } else {
            assert(alias_views(out@) =~= lv.take(i as int).filter_map(f) + Seq::<
                (Seq<char>, Seq<char>),
            >::empty());
        }
        i += 1;
    }
    assert(lv.take(lines.len() as int) =~= lv);
    out
}

// ── Entries ────────────────────────────────────────────────────────

pub open spec fn channel_entry(
    c: ChannelView,
    index: usize,
    speed: Speed,
    aliases: Seq<(Seq<char>, Seq<char>)>,
) -> EntryView {
    EntryView { name: standard_name(c.name, aliases), url: c.url, index, speed }
}

/// One entry per channel of a source, under its standard name, with the
/// source's position and speed.
pub fn build_entries(
    channels: &Vec<Channel>,
    index: usize,
    speed: Speed,
    aliases: &Vec<NameAlias>,
) -> (r: Vec<Entry>)
    ensures
        entry_views(r@) == channel_views(channels@).map_values(
            |c: ChannelView| channel_entry(c, index, speed, alias_views(aliases@)),
        ),
{
    let ghost cv = channel_views(channels@);
    let ghost f = |c: ChannelView| channel_entry(c, index, speed, alias_views(aliases@));
    let mut out: Vec<Entry> = Vec::new();
    let mut i: usize = 0;
    while i < channels.len()
        invariant
            i <= channels.len(),
            cv == channel_views(channels@),
            f == (|c: ChannelView| channel_entry(c, index, speed, alias_views(aliases@))),
            entry_views(out@) == cv.take(i as int).map_values(f),
        decreases channels.len() - i,
    {
        let name = map_to_standard_name(channels[i].name.as_str(), aliases);
        let e = Entry { name, url: channels[i].url.clone(), index, speed };
        assert(cv[i as int] == channels@[i as int]@);
        assert(f(cv[i as int]) == e@);
        let ghost prev = entry_views(out@);
        out.push(e);
        assert(cv.take(i + 1).map_values(f) =~= cv.take(i as int).map_values(f).push(
            f(cv[i as int]),
        ));
        assert(entry_views(out@) =~= prev.push(e@));
        i += 1;
    }
    assert(cv.take(channels.len() as int) =~= cv);
    out
}

/// A measured host of the subscriptions, with its rate.
pub struct HostSpeed {
    pub host: String,
    pub speed: Speed,
}

pub open spec fn host_speed_views(s: Seq<HostSpeed>) -> Seq<(Seq<char>, Speed)> {
    s.map_values(|h: HostSpeed| (h.host@, h.speed))
}

/// The rate measured for `host`: that of its first record.
pub open spec fn speed_of_host(speeds: Seq<(Seq<char>, Speed)>, host: Seq<char>) -> Option<Speed>
    decreases speeds.len(),
{
    if speeds.len() == 0 {
        None
    } else if speeds[0].0 == host {
        Some(speeds[0].1)
    } else {
        speed_of_host(speeds.drop_first(), host)
    }
}

fn lookup_speed(speeds: &Vec<HostSpeed>, host: &String) -> (r: Option<Speed>)
    ensures
        r == speed_of_host(host_speed_views(speeds@), host@),
{
    let ghost sv = host_speed_views(speeds@);
    let mut i: usize = 0;
    assert(sv.skip(0) =~= sv);
    while i < speeds.len()
        invariant
            i <= speeds.len(),
            sv == host_speed_views(speeds@),
            speed_of_host(sv, host@) == speed_of_host(sv.skip(i as int), host@),
        decreases speeds.len() - i,
    {
        assert(sv.skip(i as int)[0] == (speeds@[i as int].host@, speeds@[i as int].speed));
        assert(sv.skip(i as int).drop_first() =~= sv.skip(i + 1));
        if speeds[i].host == *host {
            return Some(speeds[i].speed);
        }
        i += 1;
    }
    None
}

/// A subscription channel is kept when its host was measured at `low` or
/// more; it takes its host's rate.
pub open spec fn subscribe_entry(
    c: ChannelView,
    speeds: Seq<(Seq<char>, Speed)>,
    low: Speed,
    index: usize,
    aliases: Seq<(Seq<char>, Seq<char>)>,
) -> Option<EntryView> {
    match speed_of_host(speeds, host_key_of(c.url)) {
        Some(s) => if s >= low {
            Some(channel_entry(c, index, s, aliases))
        } else {
            None
        },
        None => None,
    }
}

/// The entries of a subscription: its channels on hosts fast enough.
pub open spec fn subscribe_views(
    channels: Seq<ChannelView>,
    speeds: Seq<(Seq<char>, Speed)>,
    low: Speed,
    index: usize,
    aliases: Seq<(Seq<char>, Seq<char>)>,
) -> Seq<EntryView> {
    channels.filter_map(|c: ChannelView| subscribe_entry(c, speeds, low, index, aliases))
}

/// The entries of a subscription: its channels on hosts fast enough.
pub fn subscribe_entries(
    channels: &Vec<Channel>,
    speeds: &Vec<HostSpeed>,
    low: Speed,
    index: usize,
    aliases: &Vec<NameAlias>,
) -> (r: Vec<Entry>)
    ensures
        entry_views(r@) == channel_views(channels@).filter_map(
            |c: ChannelView|
                subscribe_entry(c, host_speed_views(speeds@), low, index, alias_views(aliases@)),
        ),
        entry_views(r@) == subscribe_views(
            channel_views(channels@),
            host_speed_views(speeds@),
            low,
            index,
            alias_views(aliases@),
        ),
{
    let ghost cv = channel_views(channels@);
    let ghost f = |c: ChannelView|
        subscribe_entry(c, host_speed_views(speeds@), low, index, alias_views(aliases@));
    let mut out: Vec<Entry> = Vec::new();
    let mut i: usize = 0;
    while i < channels.len()
        invariant
            i <= channels.len(),
            cv == channel_views(channels@),
            f == (|c: ChannelView|
                subscribe_entry(c, host_speed_views(speeds@), low, index, alias_views(aliases@))),
            entry_views(out@) == cv.take(i as int).filter_map(f),
        decreases channels.len() - i,
    {
        proof {
            cv.lemma_filter_map_take_succ(f, i as int);
        }
        assert(cv[i as int] == channels@[i as int]@);
        let hk = host_key(channels[i].url.as_str());
        match lookup_speed(speeds, &hk) {
            Some(s) => {
                if s >= low {
                    let name = map_to_standard_name(channels[i].name.as_str(), aliases);
                    let e = Entry { name, url: channels[i].url.clone(), index, speed: s };
                    out.push(e);
                    assert(entry_views(out@) =~= cv.take(i as int).filter_map(f) + seq![e@]);
                } else {
                    assert(entry_views(out@) =~= cv.take(i as int).filter_map(f) + Seq::<
                        EntryView,
                    >::empty());
                }
            },
            None => {
                assert(entry_views(out@) =~= cv.take(i as int).filter_map(f) + Seq::<
                    EntryView,
                >::empty());
            },
        }
        i += 1;
    }
    assert(cv.take(channels.len() as int) =~= cv);
    out
}

/// Every subscription entry kept runs at `low` or more, under the
/// subscription's position.
pub proof fn law_subscribe_entries_fast_enough(
    channels: Seq<ChannelView>,
    speeds: Seq<(Seq<char>, Speed)>,
    low: Speed,
    index: usize,
    aliases: Seq<(Seq<char>, Seq<char>)>,
)
    ensures
        forall|e: EntryView|
            channels.filter_map(|c: ChannelView| subscribe_entry(c, speeds, low, index, aliases))
                .contains(e) ==> e.speed >= low && e.index == index,
{
    let f = |c: ChannelView| subscribe_entry(c, speeds, low, index, aliases);
    assert forall|e: EntryView| channels.filter_map(f).contains(e) implies e.speed >= low
        && e.index == index by {
        channels.lemma_filter_map_contains(f, e);
        let t = choose|t: ChannelView| channels.contains(t) && f(t) == Some(e);
        assert(f(t) == Some(e));
    }
}

/// `e` comes from a channel of `channels`: it bears that channel's standard
/// name, its URL, and the rate measured for the channel's host.
pub open spec fn is_standard_entry(
    channels: Seq<ChannelView>,
    speeds: Seq<(Seq<char>, Speed)>,
    aliases: Seq<(Seq<char>, Seq<char>)>,
    e: EntryView,
) -> bool {
    exists|c: ChannelView|
        #[trigger] channels.contains(c) && e.name == standard_name(c.name, aliases) && e.url
            == c.url && speed_of_host(speeds, host_key_of(c.url)) == Some(e.speed)
}

/// Each subscription entry kept comes from a given channel: it bears that
/// channel's standard name (as API entries do), its URL, and the rate
/// measured for the channel's host.
pub proof fn law_subscribe_entries_standard_names(
    channels: Seq<ChannelView>,
    speeds: Seq<(Seq<char>, Speed)>,
    low: Speed,
    index: usize,
    aliases: Seq<(Seq<char>, Seq<char>)>,
)
    ensures
        forall|i: int|
            0 <= i < subscribe_views(channels, speeds, low, index, aliases).len() ==> is_standard_entry(
                channels,
                speeds,
                aliases,
                #[trigger] subscribe_views(channels, speeds, low, index, aliases)[i],
            ),
{
    let f = |c: ChannelView| subscribe_entry(c, speeds, low, index, aliases);
    let r = subscribe_views(channels, speeds, low, index, aliases);
    assert(r == channels.filter_map(f));
    assert forall|i: int| 0 <= i < r.len() implies is_standard_entry(
        channels,
        speeds,
        aliases,
        #[trigger] r[i],
    ) by {
        let e = r[i];
        assert(r.contains(e));
        channels.lemma_filter_map_contains(f, e);
        let t = choose|t: ChannelView| channels.contains(t) && f(t) == Some(e);
        assert(f(t) == Some(e));
        assert(channels.contains(t) && e.name == standard_name(t.name, aliases) && e.url == t.url
            && speed_of_host(speeds, host_key_of(t.url)) == Some(e.speed));
    }
}

// ── Resolution filter ──────────────────────────────────────────────

/// Whether a probed entry is kept: a stream of unknown resolution (0×0) is
/// kept, one whose height is known and under `min_h` is dropped, as is one
/// whose probe failed.
pub open spec fn resolution_ok(probe: Option<(u32, u32)>, min_h: u32) -> bool {
    match probe {
        Some((w, h)) => (w == 0 && h == 0) || !(h > 0 && h < min_h),
        None => false,
    }
}

/// The entries whose probe passes, in order.
pub open spec fn kept_by_resolution(
    entries: Seq<EntryView>,
    probes: Seq<Option<(u32, u32)>>,
    min_h: u32,
) -> Seq<EntryView>
    decreases entries.len(),
{
    if entries.len() == 0 {
        Seq::<EntryView>::empty()
    } else {
        let prev = kept_by_resolution(entries.drop_last(), probes, min_h);
        if resolution_ok(probes[entries.len() - 1], min_h) {
            prev.push(entries.last())
        } else {
            prev
        }
    }
}

/// Every entry kept is one of the entries given, and its probe passed.
pub proof fn law_resolution_filter_keeps_passing(
    entries: Seq<EntryView>,
    probes: Seq<Option<(u32, u32)>>,
    min_h: u32,
)
    ensures
        forall|x: EntryView|
            kept_by_resolution(entries, probes, min_h).contains(x) ==> exists|i: int|
                0 <= i < entries.len() && entries[i] == x && resolution_ok(probes[i], min_h),
    decreases entries.len(),
{
    if entries.len() > 0 {
        let d = entries.drop_last();
        law_resolution_filter_keeps_passing(d, probes, min_h);
        let prev = kept_by_resolution(d, probes, min_h);
        let out = kept_by_resolution(entries, probes, min_h);
        assert forall|x: EntryView| out.contains(x) implies exists|i: int|
            0 <= i < entries.len() && entries[i] == x && resolution_ok(probes[i], min_h) by {
            let m = choose|m: int| 0 <= m < out.len() && out[m] == x;
            if m < prev.len() {
                assert(out[m] == prev[m]);
                assert(prev.contains(x));
                let i = choose|i: int|
                    0 <= i < d.len() && d[i] == x && resolution_ok(probes[i], min_h);
                assert(entries[i] == d[i]);
            } else {
                assert(entries[entries.len() - 1] == x);
            }
        }
    }
}

/// `a` is `b` with some of its elements left out, the rest in order.
pub open spec fn is_subsequence(a: Seq<EntryView>, b: Seq<EntryView>) -> bool
    decreases b.len(),
{
    if a.len() == 0 {
        true
    } else if b.len() == 0 {
        false
    } else if a.last() == b.last() {
        is_subsequence(a.drop_last(), b.drop_last())
    } else {
        is_subsequence(a, b.drop_last())
    }
}

proof fn lemma_subsequence_drop_last(a: Seq<EntryView>, b: Seq<EntryView>)
    requires
        a.len() > 0,
        is_subsequence(a, b),
    ensures
        is_subsequence(a.drop_last(), b),
    decreases a.len() + b.len(), 0int,
{
    if b.len() > 0 {
        if a.last() == b.last() {
            lemma_subsequence_push(a.drop_last(), b.drop_last(), b.last());
            assert(b.drop_last().push(b.last()) =~= b);
        } else {
            lemma_subsequence_drop_last(a, b.drop_last());
            lemma_subsequence_push(a.drop_last(), b.drop_last(), b.last());
            assert(b.drop_last().push(b.last()) =~= b);
        }
    }
}

proof fn lemma_subsequence_push(a: Seq<EntryView>, b: Seq<EntryView>, x: EntryView)
    requires
        is_subsequence(a, b),
    ensures
        is_subsequence(a, b.push(x)),
    decreases a.len() + b.len(), 1int,
{
    let bx = b.push(x);
    assert(bx.drop_last() =~= b);
    if a.len() > 0 && a.last() == x {
        lemma_subsequence_drop_last(a, b);
    }
}

/// A higher minimum height never keeps more: the entries kept at `m2` are
/// among those kept at `m1 <= m2`, in the same order.
pub proof fn law_resolution_filter_monotone(
    entries: Seq<EntryView>,
    probes: Seq<Option<(u32, u32)>>,
    m1: u32,
    m2: u32,
)
    requires
        m1 <= m2,
    ensures
        is_subsequence(
            kept_by_resolution(entries, probes, m2),
            kept_by_resolution(entries, probes, m1),
        ),
        kept_by_resolution(entries, probes, m2).len() <= kept_by_resolution(
            entries,
            probes,
            m1,
        ).len(),
    decreases entries.len(),
{
    if entries.len() > 0 {
        let d = entries.drop_last();
        let e = entries.last();
        let k1 = kept_by_resolution(d, probes, m1);
        let k2 = kept_by_resolution(d, probes, m2);
        law_resolution_filter_monotone(d, probes, m1, m2);
        let p = probes[entries.len() - 1];
        if resolution_ok(p, m2) {
            assert(resolution_ok(p, m1));
            let a = k2.push(e);
            let b = k1.push(e);
            assert(a.drop_last() =~= k2);
            assert(b.drop_last() =~= k1);
        } else if resolution_ok(p, m1) {
            lemma_subsequence_push(k2, k1, e);
        }
    }
}

/// Keeps the entries whose probe (`probes[i]` for `entries[i]`) passes.
pub fn filter_entries_by_resolution(
    entries: Vec<Entry>,
    probes: &Vec<Option<(u32, u32)>>,
    min_h: u32,
) -> (r: Vec<Entry>)
    requires
        probes.len() == entries.len(),
    ensures
        entry_views(r@) == kept_by_resolution(entry_views(entries@), probes@, min_h),
{
    let ghost ev = entry_views(entries@);
    let mut kept: Vec<Entry> = Vec::new();
    let mut i: usize = 0;
    assert(ev.take(0) =~= Seq::<EntryView>::empty());
    while i < entries.len()
        invariant
            i <= entries.len() == probes.len(),
            ev == entry_views(entries@),
            entry_views(kept@) == kept_by_resolution(ev.take(i as int), probes@, min_h),
        decreases entries.len() - i,
    {
        assert(ev.take(i + 1).drop_last() =~= ev.take(i as int));
        assert(ev.take(i + 1).last() == entries@[i as int]@);
        let keep = match probes[i] {
            Some((w, h)) => (w == 0 && h == 0) || !(h > 0 && h < min_h),
            None => false,
        };
        if keep {
            let ghost prev = entry_views(kept@);
            kept.push(entries[i].duplicate());
            assert(entry_views(kept@) =~= prev.push(ev[i as int]));
        }
        i += 1;
    }
    assert(ev.take(entries.len() as int) =~= ev);
    kept
}

// ── hsmdtv channel list ───────────────────────────────────────────

/// A stream URL in a line of the hsmdtv address list.
pub const URL_PATTERN: &'static str = "(http://[^\\s]+)";

/// The channel number that may lead a name.
pub const ID_PATTERN: &'static str = "^\\s*\\d+\\s+";

/// A marker removed from names.
pub const DEFAULT_MARK: &'static str = "（默认频道）";

/// The entry that a line of the hsmdtv address list gives: the name is the
/// text before the URL without its leading number and the default-channel
/// mark; the stream is the URL's path on `host`.
pub open spec fn hsmdtv_entry(
    host: Seq<char>,
    line: Seq<char>,
    index: usize,
    speed: Speed,
    aliases: Seq<(Seq<char>, Seq<char>)>,
) -> Option<EntryView> {
    let l = trim(line);
    if l.len() == 0 {
        None
    } else {
        match regex_first_match(URL_PATTERN@, l) {
            None => None,
            Some(m) => match parsed_url(m.1) {
                None => None,
                Some(p) => Some(
                    hsmdtv_listed_entry(
                        host,
                        regex_replace_first(ID_PATTERN@, m.0, Seq::<char>::empty()),
                        p,
                        index,
                        speed,
                        aliases,
                    ),
                ),
            },
        }
    }
}

/// The entry of an address-list line whose name text (without its number)
/// is `name_text` and whose URL has the parts `p`: the name loses the
/// default-channel mark and surrounding space and is standardised; the
/// stream is the URL's path on `host`.
pub open spec fn hsmdtv_listed_entry(
    host: Seq<char>,
    name_text: Seq<char>,
    p: UrlView,
    index: usize,
    speed: Speed,
    aliases: Seq<(Seq<char>, Seq<char>)>,
) -> EntryView {
    EntryView {
        name: standard_name(
            trim(replace_all(name_text, DEFAULT_MARK@, Seq::<char>::empty())),
            aliases,
        ),
        url: "http://"@ + host + p.2,
        index,
        speed,
    }
}

/// The entry of an hsmdtv address-list line, from the text before its URL
/// (without the channel number) and the parts of the URL.
pub fn hsmdtv_entry_from_parts(
    host: &str,
    name_text: &str,
    parts: &UrlParts,
    index: usize,
    speed: Speed,
    aliases: &Vec<NameAlias>,
) -> (e: Entry)
    ensures
        e@ == hsmdtv_listed_entry(
            host@,
            name_text@,
            parts.parts(),
            index,
            speed,
            alias_views(aliases@),
        ),
{
    let mark = chars_of(DEFAULT_MARK);
    let empty: Vec<char> = Vec::new();
    let raw = trim_chars(&replace_all_chars(&chars_of(name_text), &mark, &empty));
    let name = map_to_standard_name(string_of(&raw).as_str(), aliases);
    let mut u = chars_of("http://");
    extend_chars(&mut u, &chars_of(host));
    extend_chars(&mut u, &chars_of(parts.path.as_str()));
    Entry { name, url: string_of(&u), index, speed }
}

fn hsmdtv_one(
    host: &Vec<char>,
    line: &Vec<char>,
    url_re: &crate::patterns::Pattern,
    id_re: &crate::patterns::Pattern,
    index: usize,
    speed: Speed,
    aliases: &Vec<NameAlias>,
) -> (r: Option<Entry>)
    requires
        url_re@ == URL_PATTERN@,
        id_re@ == ID_PATTERN@,
    ensures
        match r {
            Some(e) => hsmdtv_entry(host@, line@, index, speed, alias_views(aliases@)) == Some(e@),
            None => hsmdtv_entry(host@, line@, index, speed, alias_views(aliases@)) is None,
        },
{
    let l = trim_chars(line);
    if l.len() == 0 {
        return None;
    }
    let text = string_of(&l);
    let (before, url) = match first_match(url_re, text.as_str()) {
        Some(m) => m,
        None => return None,
    };
    let p = match parse_url(url.as_str()) {
        Some(p) => p,
        None => return None,
    };
    assert(""@ =~= Seq::<char>::empty()) by {
        reveal_strlit("");
    }
    let no_id = replace_first(id_re, before.as_str(), "");
    let host_text = string_of(host);
    Some(hsmdtv_entry_from_parts(host_text.as_str(), no_id.as_str(), &p, index, speed, aliases))
}

/// The entries of an hsmdtv host: the channels of the address list `data`,
/// moved to `host`. Where either pattern does not compile there are none.
pub fn process_hsmdtv_channels(
    host: &str,
    data: &str,
    index: usize,
    speed: Speed,
    aliases: &Vec<NameAlias>,
) -> (r: Vec<Entry>)
    ensures
        regex_compiles(URL_PATTERN@) && regex_compiles(ID_PATTERN@) ==> entry_views(r@)
            == split_on(data@, '\n').filter_map(
            |l: Seq<char>| hsmdtv_entry(host@, l, index, speed, alias_views(aliases@)),
        ),
        !(regex_compiles(URL_PATTERN@) && regex_compiles(ID_PATTERN@)) ==> r@.len() == 0,
{
    let url_re = match compile_pattern(URL_PATTERN) {
        Some(p) => p,
        None => return Vec::new(),
    };
    let id_re = match compile_pattern(ID_PATTERN) {
        Some(p) => p,
        None => return Vec::new(),
    };
    let h = chars_of(host);
    let lines = split_chars(&chars_of(data), '\n');
    let ghost lv = lines@.map_values(|l: Vec<char>| l@);
    let ghost f = |l: Seq<char>| hsmdtv_entry(host@, l, index, speed, alias_views(aliases@));
    let mut out: Vec<Entry> = Vec::new();
    let mut i: usize = 0;
    while i < lines.len()
        invariant
            i <= lines.len() == lv.len(),
            h@ == host@,
            url_re@ == URL_PATTERN@,
            id_re@ == ID_PATTERN@,
            lv == lines@.map_values(|l: Vec<char>| l@),
            f == (|l: Seq<char>| hsmdtv_entry(host@, l, index, speed, alias_views(aliases@))),
            entry_views(out@) == lv.take(i as int).filter_map(f),
        decreases lines.len() - i,
    {
        proof {
            lv.lemma_filter_map_take_succ(f, i as int);
        }
        match hsmdtv_one(&h, &lines[i], &url_re, &id_re, index, speed, aliases) {
            Some(e) => {
                out.push(e);
                assert(entry_views(out@) =~= lv.take(i as int).filter_map(f) + seq![e@]);
            },
            None => {
                assert(entry_views(out@) =~= lv.take(i as int).filter_map(f) + Seq::<
                    EntryView,
                >::empty());
            },
        }
        i += 1;
    }
    assert(lv.take(lines.len() as int) =~= lv);
    out
}

// ── Steps of a run ─────────────────────────────────────────────────

/// What a run does once it has collected its entries, or probed them.
#[derive(PartialEq, Eq, Structural, Clone, Copy, Debug)]
pub enum RunAction {
    /// Nothing to publish: the served playlists stay as they are.
    KeepCache,
    /// Probe every entry and keep those of at least this height.
    ProbeResolution(u32),
    /// Write and serve the playlists of the entries.
    Publish,
}

pub open spec fn collecting_action(entry_count: nat, min_res: u32) -> RunAction {
    if entry_count == 0 {
        RunAction::KeepCache
    } else if min_res > 0 {
        RunAction::ProbeResolution(min_res)
    } else {
        RunAction::Publish
    }
}

pub open spec fn probing_action(entry_count: nat) -> RunAction {
    if entry_count == 0 {
        RunAction::KeepCache
    } else {
        RunAction::Publish
    }
}

/// After collecting `entry_count` entries: keep the cache when there are
/// none, probe them when a minimum resolution is set, else publish.
pub fn after_collecting(entry_count: usize, min_res: u32) -> (r: RunAction)
    ensures
        r == collecting_action(entry_count as nat, min_res),
{
    if entry_count == 0 {
        RunAction::KeepCache
    } else if min_res > 0 {
        RunAction::ProbeResolution(min_res)
    } else {
        RunAction::Publish
    }
}

/// After the resolution filter left `entry_count` entries: keep the cache
/// when there are none, else publish.
pub fn after_probing(entry_count: usize) -> (r: RunAction)
    ensures
        r == probing_action(entry_count as nat),
{
    if entry_count == 0 {
        RunAction::KeepCache
    } else {
        RunAction::Publish
    }
}

/// A run never replaces the served playlists with empty ones: it publishes
/// only entries it has.
pub proof fn law_no_empty_publication(entry_count: nat, min_res: u32, probed_count: nat)
    ensures
        collecting_action(entry_count, min_res) == RunAction::Publish ==> entry_count > 0,
        probing_action(probed_count) == RunAction::Publish ==> probed_count > 0,
        collecting_action(entry_count, min_res) is ProbeResolution ==> min_res > 0,
        collecting_action(entry_count, min_res) == RunAction::KeepCache <==> entry_count == 0,
{
}

// ── Entries of an API source ───────────────────────────────────────

/// The entries of a selected API source, by its type: its channels for
/// txiptv, zhgxtv and jsmpeg hosts; the hsmdtv address list (`hsmd_list`,
/// when there is one) moved to the host for hsmdtv hosts; none otherwise.
pub fn source_entries(
    src: &SourceResult,
    index: usize,
    aliases: &Vec<NameAlias>,
    hsmd_list: &Option<String>,
) -> (r: Vec<Entry>)
    ensures
        match match_type_of(src.match_type@) {
            MatchType::Txiptv | MatchType::Zhgxtv | MatchType::Jsmpeg => entry_views(r@)
                == channel_views(src.channels@).map_values(
                |c: ChannelView| channel_entry(c, index, src.speed, alias_views(aliases@)),
            ),
            MatchType::Hsmdtv => match hsmd_list {
                Some(data) => regex_compiles(URL_PATTERN@) && regex_compiles(ID_PATTERN@)
                    ==> entry_views(r@) == split_on(data@, '\n').filter_map(
                    |l: Seq<char>|
                        hsmdtv_entry(src.host@, l, index, src.speed, alias_views(aliases@)),
                ),
                None => r@.len() == 0,
            },
            MatchType::Other => r@.len() == 0,
        },
{
    match classify_match_type(src.match_type.as_str()) {
        MatchType::Txiptv | MatchType::Zhgxtv | MatchType::Jsmpeg => build_entries(
            &src.channels,
            index,
            src.speed,
            aliases,
        ),
        MatchType::Hsmdtv => match hsmd_list {
            Some(data) => process_hsmdtv_channels(
                src.host.as_str(),
                data.as_str(),
                index,
                src.speed,
                aliases,
            ),
            None => Vec::new(),
        },
        MatchType::Other => Vec::new(),
    }
}

} // verus!
