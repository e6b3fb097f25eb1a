use vstd::prelude::*;
use crate::text::{
    chars_equal, chars_of, concat3, contains, decimal, extend_chars, find_char, find_infix,
    first_index_of, has_infix, has_prefix, is_first_occurrence, last_index_of,
    lemma_first_index_of, lemma_first_occurrence_unique, lemma_last_index_of, lowercase, occurs_at,
    push_decimal, rfind_char, slice_chars, split_chars, split_on, starts_with, string_is_empty, string_of, to_lowercase, trim,
    trim_chars,
};
use crate::types::{
    channel_views, Channel, ChannelView, FAILED_SPEED, SourceResult, SourceView, Speed,
};
use crate::config::SPEED_TEST_SECS;
use crate::urls::{opt_string_view, parse_url, parsed_url, UrlParts, UrlView};

verus! {

broadcast use vstd::seq_lib::group_seq_properties;

// ── The first segment of an HLS playlist ──────────────────────────

/// The URL of the first segment listed in `lines`: the first line that,
/// trimmed, is neither empty nor a `#` tag; taken as it is when it starts
/// with "http", else resolved against `origin` (a line starting with `/`)
/// or `base`.
pub open spec fn first_segment(lines: Seq<Seq<char>>, origin: Seq<char>, base: Seq<char>) -> Option<
    Seq<char>,
>
    decreases lines.len(),
{
    if lines.len() == 0 {
        None
    } else {
        let l = trim(lines[0]);
        if l.len() == 0 || l[0] == '#' {
            first_segment(lines.drop_first(), origin, base)
        } else if starts_with(l, "http"@) {
            Some(l)
        } else if l[0] == '/' {
            Some(origin + l)
        } else {
            Some(base + l)
        }
    }
}

/// Line `j` of `lines` is the first media line: trimmed, it is neither
/// empty nor a `#` tag, and every line before it is.
pub open spec fn first_media_line(lines: Seq<Seq<char>>, j: int) -> bool {
    &&& 0 <= j < lines.len()
    &&& trim(lines[j]).len() > 0 && trim(lines[j])[0] != '#'
    &&& forall|k: int|
        0 <= k < j ==> trim(#[trigger] lines[k]).len() == 0 || trim(lines[k])[0] == '#'
}

proof fn lemma_first_segment_line(
    lines: Seq<Seq<char>>,
    origin: Seq<char>,
    base: Seq<char>,
    j: int,
)
    requires
        first_media_line(lines, j),
    ensures
        ({
            let l = trim(lines[j]);
            &&& first_segment(lines, origin, base) matches Some(u) && l.len() <= u.len()
                && u.subrange(u.len() - l.len(), u.len() as int) == l
            &&& starts_with(l, "http"@) ==> first_segment(lines, origin, base) == Some(l)
        }),
    decreases j,
{
    let l = trim(lines[j]);
    if j > 0 {
        let t = lines.drop_first();
        assert forall|k: int| 0 <= k < j - 1 implies trim(#[trigger] t[k]).len() == 0 || trim(
            t[k],
        )[0] == '#' by {
            assert(t[k] == lines[k + 1]);
        }
        assert(t[j - 1] == lines[j]);
        lemma_first_segment_line(t, origin, base, j - 1);
        assert(trim(lines[0]).len() == 0 || trim(lines[0])[0] == '#');
    } else {
        let u = first_segment(lines, origin, base)->0;
        assert(u.subrange(u.len() - l.len(), u.len() as int) =~= l);
    }
}

proof fn lemma_first_segment_none(lines: Seq<Seq<char>>, origin: Seq<char>, base: Seq<char>)
    requires
        forall|j: int| 0 <= j < lines.len() ==> !first_media_line(lines, j),
    ensures
        first_segment(lines, origin, base) is None,
    decreases lines.len(),
{
    if lines.len() > 0 {
        assert(!first_media_line(lines, 0));
        let t = lines.drop_first();
        assert forall|j: int| 0 <= j < t.len() implies !first_media_line(t, j) by {
            if first_media_line(t, j) {
                assert(t[j] == lines[j + 1]);
                assert forall|k: int| 0 <= k < j + 1 implies trim(#[trigger] lines[k]).len() == 0
                    || trim(lines[k])[0] == '#' by {
                    if k > 0 {
                        assert(lines[k] == t[k - 1]);
                    }
                }
                assert(first_media_line(lines, j + 1));
            }
        }
        lemma_first_segment_none(t, origin, base);
    }
}

/// The segment of an HLS playlist is its first media line: when the URL of
/// the playlist has a host and a `/`, the segment found always ends with
/// that line, trimmed; it is that line unchanged when the line starts with
/// "http" (https included); and there is none when no line is a media
/// line.
pub proof fn law_segment_is_first_media_line(playlist_url: Seq<char>, p: UrlView, body: Seq<char>)
    requires
        p.1 is Some,
        playlist_url.contains('/'),
    ensures
        forall|j: int|
            #[trigger] first_media_line(split_on(body, '\n'), j) ==> {
                let l = trim(split_on(body, '\n')[j]);
                &&& segment_from(playlist_url, p, body) matches Some(u) && l.len() <= u.len()
                    && u.subrange(u.len() - l.len(), u.len() as int) == l
                &&& starts_with(l, "http"@) ==> segment_from(playlist_url, p, body) == Some(l)
            },
        (forall|j: int| 0 <= j < split_on(body, '\n').len() ==> !first_media_line(
            split_on(body, '\n'),
            j,
        )) ==> segment_from(playlist_url, p, body) is None,
{
    let lines = split_on(body, '\n');
    let origin = origin_of(p.0, p.1->0, p.4);
    let base = playlist_url.take(last_index_of(playlist_url, '/') + 1);
    assert(segment_from(playlist_url, p, body) == first_segment(lines, origin, base));
    assert forall|j: int| #[trigger] first_media_line(lines, j) implies {
        let l = trim(lines[j]);
        &&& first_segment(lines, origin, base) matches Some(u) && l.len() <= u.len()
            && u.subrange(u.len() - l.len(), u.len() as int) == l
        &&& starts_with(l, "http"@) ==> first_segment(lines, origin, base) == Some(l)
    } by {
        lemma_first_segment_line(lines, origin, base, j);
    }
    if forall|j: int| 0 <= j < lines.len() ==> !first_media_line(lines, j) {
        lemma_first_segment_none(lines, origin, base);
    }
}

/// The origin of a URL: scheme, host and, when the URL gives one, port.
pub open spec fn origin_of(scheme: Seq<char>, host: Seq<char>, port: Option<u16>) -> Seq<char> {
    scheme + "://"@ + host + match port {
        Some(n) => seq![':'] + decimal(n as nat),
        None => Seq::<char>::empty(),
    }
}

/// The first segment of the playlist `body` fetched from `playlist_url`,
/// whose parts are `p`. There is none when the URL has no host or holds
/// no `/`.
pub open spec fn segment_from(playlist_url: Seq<char>, p: UrlView, body: Seq<char>) -> Option<
    Seq<char>,
> {
    match p.1 {
        None => None,
        Some(host) => if !playlist_url.contains('/') {
            None
        } else {
            first_segment(
                split_on(body, '\n'),
                origin_of(p.0, host, p.4),
                playlist_url.take(last_index_of(playlist_url, '/') + 1),
            )
        },
    }
}

/// The first segment of the playlist `body` fetched from `playlist_url`;
/// none when the URL does not parse.
pub open spec fn segment_url(playlist_url: Seq<char>, body: Seq<char>) -> Option<Seq<char>> {
    match parsed_url(playlist_url) {
        None => None,
        Some(p) => segment_from(playlist_url, p, body),
    }
}

/// The URL of the first media segment of an HLS playlist.
pub fn resolve_segment_url(playlist_url: &str, body: &str) -> (r: Option<String>)
    ensures
        opt_string_view(r) == segment_url(playlist_url@, body@),
{
    match parse_url(playlist_url) {
        Some(p) => segment_from_parts(playlist_url, &p, body),
        None => None,
    }
}

/// The URL of the first media segment of the HLS playlist `body`, fetched
/// from `playlist_url` whose parts are `parts`.
pub fn segment_from_parts(playlist_url: &str, parts: &UrlParts, body: &str) -> (r: Option<String>)
    ensures
        opt_string_view(r) == segment_from(playlist_url@, parts.parts(), body@),
{
    let host = match &parts.host {
        Some(h) => h,
        None => return None,
    };
    let url = chars_of(playlist_url);
    let slash = match rfind_char(&url, '/') {
        Some(i) => i,
        None => return None,
    };
    proof {
        lemma_last_index_of(url@, '/', slash as int);
    }
    let mut origin = concat3(
        &chars_of(parts.scheme.as_str()),
        &chars_of("://"),
        &chars_of(host.as_str()),
    );
    match parts.port {
        Some(n) => {
            let ghost before = origin@;
            origin.push(':');
            push_decimal(&mut origin, n as u64);
            assert(origin@ =~= before + (seq![':'] + decimal(n as nat)));
        },
        None => {
            assert(origin@ =~= origin@ + Seq::<char>::empty());
        },
    }
    let base = slice_chars(&url, 0, slash + 1);
    assert(base@ == url@.take(slash + 1));
    let lines = split_chars(&chars_of(body), '\n');
    let ghost lv = lines@.map_values(|l: Vec<char>| l@);
    let http = chars_of("http");
    let mut j: usize = 0;
    assert(lv.skip(0) =~= lv);
    assert(url@.contains('/'));
    assert(parts.parts().1 == Some(host@));
    assert(segment_from(playlist_url@, parts.parts(), body@) == first_segment(lv, origin@, base@));
    while j < lines.len()
        invariant
            j <= lines.len() == lv.len(),
            lv == lines@.map_values(|l: Vec<char>| l@),
            http@ == "http"@,
            segment_from(playlist_url@, parts.parts(), body@) == first_segment(lv, origin@, base@),
            first_segment(lv, origin@, base@) == first_segment(lv.skip(j as int), origin@, base@),
        decreases lines.len() - j,
    {
        assert(lv.skip(j as int)[0] == lines@[j as int]@);
        assert(lv.skip(j as int).drop_first() =~= lv.skip(j + 1));
        let l = trim_chars(&lines[j]);
        if l.len() == 0 || l[0] == '#' {
            j += 1;
            continue;
        }
        if has_prefix(&l, &http) {
            assert(first_segment(lv.skip(j as int), origin@, base@) == Some(l@));
            let r = string_of(&l);
            assert(opt_string_view(Some(r)) == Some(l@));
            return Some(r);
        } else if l[0] == '/' {
            let ghost o = origin@;
            let mut u = origin;
            extend_chars(&mut u, &l);
            assert(first_segment(lv.skip(j as int), o, base@) == Some(u@));
            return Some(string_of(&u));
        } else {
            let mut u = base;
            extend_chars(&mut u, &l);
            return Some(string_of(&u));
        }
    }
    None
}

// ── Channel lists of the API host types ───────────────────────────

/// A channel as a host lists it: a name and a link, which is a URL or, for
/// jsmpeg hosts, a stream key.
pub type Listed = Channel;

/// The URL of a txiptv channel link on `host`: the link itself when it holds
/// "http", else the link taken as a path on the host.
pub open spec fn txiptv_url(host: Seq<char>, link: Seq<char>) -> Seq<char> {
    if contains(link, "http"@) {
        link
    } else if link.len() > 0 && link[0] == '/' {
        "http://"@ + host + link
    } else {
        "http://"@ + host + "/"@ + link
    }
}

/// A txiptv channel is kept when its name and link are not empty and the
/// link holds no comma.
pub open spec fn txiptv_channel(host: Seq<char>, item: ChannelView) -> Option<ChannelView> {
    if item.name.len() == 0 || item.url.len() == 0 || item.url.contains(',') {
        None
    } else {
        Some(ChannelView { name: item.name, url: txiptv_url(host, item.url) })
    }
}

fn txiptv_one(host: &Vec<char>, item: &Listed) -> (r: Option<Channel>)
    ensures
        match r {
            Some(c) => txiptv_channel(host@, item@) == Some(c@),
            None => txiptv_channel(host@, item@) is None,
        },
{
    let name = chars_of(item.name.as_str());
    let link = chars_of(item.url.as_str());
    if name.len() == 0 || link.len() == 0 {
        return None;
    }
    if find_char(&link, ',').is_some() {
        return None;
    }
    let url = if has_infix(&link, &chars_of("http")) {
        link
    } else if link[0] == '/' {
        let mut u = chars_of("http://");
        extend_chars(&mut u, host);
        extend_chars(&mut u, &link);
        u
    } else {
        let mut u = chars_of("http://");
        extend_chars(&mut u, host);
        extend_chars(&mut u, &chars_of("/"));
        extend_chars(&mut u, &link);
        u
    };
    Some(Channel { name: item.name.clone(), url: string_of(&url) })
}

/// The channels kept of those a txiptv host lists.
pub open spec fn txiptv_views(host: Seq<char>, items: Seq<ChannelView>) -> Seq<ChannelView> {
    items.filter_map(|it: ChannelView| txiptv_channel(host, it))
}

/// `c` is the channel `item` of a txiptv host `host`: the same name, and as
/// URL the whole link (its query included), either as it is when it holds
/// "http", or behind "http://" and the host, with one `/` between them.
pub open spec fn txiptv_link_of(host: Seq<char>, item: ChannelView, c: ChannelView) -> bool {
    let n = c.url.len() as int;
    let h = host.len() as int;
    let l = item.url.len() as int;
    &&& c.name == item.name
    &&& l <= n
    &&& c.url.subrange(n - l, n) == item.url
    &&& contains(item.url, "http"@) ==> c.url == item.url
    &&& !contains(item.url, "http"@) ==> {
        &&& c.url.take(7) == "http://"@
        &&& c.url.subrange(7, 7 + h) == host
        &&& c.url[7 + h] == '/'
        &&& n == 7 + h + if item.url[0] == '/' {
            l
        } else {
            l + 1
        }
    }
}

/// `c` is the channel of some item that a txiptv host `host` lists.
pub open spec fn txiptv_listed(host: Seq<char>, items: Seq<ChannelView>, c: ChannelView) -> bool {
    exists|it: ChannelView| #[trigger] items.contains(it) && txiptv_link_of(host, it, c)
}

/// Each channel a txiptv host is read into is one it lists, with that
/// channel's name and its whole link on the host.
pub proof fn law_txiptv_links_kept_whole(host: Seq<char>, items: Seq<ChannelView>)
    ensures
        forall|i: int|
            0 <= i < txiptv_views(host, items).len() ==> txiptv_listed(
                host,
                items,
                #[trigger] txiptv_views(host, items)[i],
            ),
{
    let f = |it: ChannelView| txiptv_channel(host, it);
    let r = txiptv_views(host, items);
    assert(r == items.filter_map(f));
    assert forall|i: int| 0 <= i < r.len() implies txiptv_listed(host, items, #[trigger] r[i]) by {
        let c = r[i];
        assert(r.contains(c));
        items.lemma_filter_map_contains(f, c);
        let t = choose|t: ChannelView| items.contains(t) && f(t) == Some(c);
        assert(f(t) == Some(c));
        reveal_strlit("http://");
        reveal_strlit("/");
        if !contains(t.url, "http"@) {
            if t.url[0] == '/' {
                assert(c.url == "http://"@ + host + t.url);
            } else {
                assert(c.url == "http://"@ + host + "/"@ + t.url);
            }
            assert(c.url.subrange(c.url.len() - t.url.len(), c.url.len() as int) =~= t.url);
            assert(c.url.take(7) =~= "http://"@);
            assert(c.url.subrange(7, 7 + host.len() as int) =~= host);
        } else {
            assert(c.url.subrange(c.url.len() - t.url.len(), c.url.len() as int) =~= t.url);
        }
        assert(txiptv_link_of(host, t, c));
    }
}

/// The channels that a txiptv host lists, in order; the first one is the
/// one whose speed is measured.
pub fn txiptv_channels(host: &str, items: &Vec<Listed>) -> (r: Vec<Channel>)
    ensures
        channel_views(r@) == channel_views(items@).filter_map(
            |it: ChannelView| txiptv_channel(host@, it),
        ),
        channel_views(r@) == txiptv_views(host@, channel_views(items@)),
{
    let h = chars_of(host);
    let ghost f = |it: ChannelView| txiptv_channel(host@, it);
    let ghost iv = channel_views(items@);
    let mut out: Vec<Channel> = Vec::new();
    let mut i: usize = 0;
    while i < items.len()
        invariant
            i <= items.len(),
            h@ == host@,
            iv == channel_views(items@),
            f == (|it: ChannelView| txiptv_channel(host@, it)),
            channel_views(out@) == iv.take(i as int).filter_map(f),
        decreases items.len() - i,
    {
        proof {
            iv.lemma_filter_map_take_succ(f, i as int);
        }
        match txiptv_one(&h, &items[i]) {
            Some(c) => {
                out.push(c);
                assert(channel_views(out@) =~= iv.take(i as int).filter_map(f) + seq![
                    c@,
                ]);
            },
            None => {
                assert(channel_views(out@) =~= iv.take(i as int).filter_map(f) + Seq::<
                    ChannelView,
                >::empty());
            },
        }
        i += 1;
    }
    assert(iv.take(items.len() as int) =~= iv);
    out
}

/// A jsmpeg channel is kept when its name and key, trimmed, are not empty;
/// its stream is the HLS playlist of the key.
pub open spec fn jsmpeg_channel(host: Seq<char>, item: ChannelView) -> Option<ChannelView> {
    let name = trim(item.name);
    let key = trim(item.url);
    if name.len() == 0 || key.len() == 0 {
        None
    } else {
        Some(ChannelView { name, url: "http://"@ + host + "/hls/"@ + key + "/index.m3u8"@ })
    }
}

fn jsmpeg_one(host: &Vec<char>, item: &Listed) -> (r: Option<Channel>)
    ensures
        match r {
            Some(c) => jsmpeg_channel(host@, item@) == Some(c@),
            None => jsmpeg_channel(host@, item@) is None,
        },
{
    let name = trim_chars(&chars_of(item.name.as_str()));
    let key = trim_chars(&chars_of(item.url.as_str()));
    if name.len() == 0 || key.len() == 0 {
        return None;
    }
    let mut u = chars_of("http://");
    extend_chars(&mut u, host);
    extend_chars(&mut u, &chars_of("/hls/"));
    extend_chars(&mut u, &key);
    extend_chars(&mut u, &chars_of("/index.m3u8"));
    Some(Channel { name: string_of(&name), url: string_of(&u) })
}

/// The channels that a jsmpeg host lists, in order.
pub fn jsmpeg_channels(host: &str, items: &Vec<Listed>) -> (r: Vec<Channel>)
    ensures
        channel_views(r@) == channel_views(items@).filter_map(
            |it: ChannelView| jsmpeg_channel(host@, it),
        ),
{
    let h = chars_of(host);
    let ghost f = |it: ChannelView| jsmpeg_channel(host@, it);
    let ghost iv = channel_views(items@);
    let mut out: Vec<Channel> = Vec::new();
    let mut i: usize = 0;
    while i < items.len()
        invariant
            i <= items.len(),
            h@ == host@,
            iv == channel_views(items@),
            f == (|it: ChannelView| jsmpeg_channel(host@, it)),
            channel_views(out@) == iv.take(i as int).filter_map(f),
        decreases items.len() - i,
    {
        proof {
            iv.lemma_filter_map_take_succ(f, i as int);
        }
        match jsmpeg_one(&h, &items[i]) {
            Some(c) => {
                out.push(c);
                assert(channel_views(out@) =~= iv.take(i as int).filter_map(f) + seq![
                    c@,
                ]);
            },
            None => {
                assert(channel_views(out@) =~= iv.take(i as int).filter_map(f) + Seq::<
                    ChannelView,
                >::empty());
            },
        }
        i += 1;
    }
    assert(iv.take(items.len() as int) =~= iv);
    out
}

/// The URL of a zhgxtv channel link on `host`: an absolute link is moved to
/// the host, keeping its scheme, path and query (and the line is dropped
/// when the link does not parse); another link is taken as a path.
pub open spec fn zhgxtv_url(host: Seq<char>, link: Seq<char>) -> Option<Seq<char>> {
    if starts_with(link, "http"@) {
        match parsed_url(link) {
            Some(p) => Some(relocated(host, p)),
            None => None,
        }
    } else if link.len() > 0 && link[0] == '/' {
        Some("http://"@ + host + link)
    } else {
        Some("http://"@ + host + "/"@ + link)
    }
}

/// The URL with parts `p` moved to `host`: its scheme, then `host`, then
/// its path and query.
pub open spec fn relocated(host: Seq<char>, p: UrlView) -> Seq<char> {
    p.0 + "://"@ + host + p.2 + match p.3 {
        Some(q) => seq!['?'] + q,
        None => Seq::<char>::empty(),
    }
}

/// The URL with parts `parts` moved to `host` (which may carry a port).
pub fn relocate_url(host: &str, parts: &UrlParts) -> (r: String)
    ensures
        r@ == relocated(host@, parts.parts()),
{
    let mut u = chars_of(parts.scheme.as_str());
    extend_chars(&mut u, &chars_of("://"));
    extend_chars(&mut u, &chars_of(host));
    extend_chars(&mut u, &chars_of(parts.path.as_str()));
    match &parts.query {
        Some(q) => {
            let mut tail = vec!['?'];
            assert(tail@ =~= seq!['?']);
            extend_chars(&mut tail, &chars_of(q.as_str()));
            extend_chars(&mut u, &tail);
        },
        None => {
            let ghost before = u@;
            assert(before + Seq::<char>::empty() =~= before);
        },
    }
    string_of(&u)
}

/// A line `name,link` of a zhgxtv channel list; lines without a comma are
/// skipped.
pub open spec fn zhgxtv_channel(host: Seq<char>, line: Seq<char>) -> Option<ChannelView> {
    let l = trim(line);
    if !l.contains(',') {
        None
    } else {
        let i = first_index_of(l, ',');
        let name = trim(l.take(i));
        let link = trim(l.skip(i + 1));
        match zhgxtv_url(host, link) {
            Some(u) => Some(ChannelView { name, url: u }),
            None => None,
        }
    }
}

fn zhgxtv_one(host: &Vec<char>, line: &Vec<char>) -> (r: Option<Channel>)
    ensures
        match r {
            Some(c) => zhgxtv_channel(host@, line@) == Some(c@),
            None => zhgxtv_channel(host@, line@) is None,
        },
{
    let l = trim_chars(line);
    let comma = match find_char(&l, ',') {
        Some(i) => i,
        None => return None,
    };
    proof {
        lemma_first_index_of(l@, ',', comma as int);
    }
    let name = trim_chars(&slice_chars(&l, 0, comma));
    let link = trim_chars(&slice_chars(&l, comma + 1, l.len()));
    assert(l@.take(comma as int) =~= l@.subrange(0, comma as int));
    assert(l@.skip(comma + 1) =~= l@.subrange(comma + 1, l.len() as int));
    let url = if has_prefix(&link, &chars_of("http")) {
        let link_str = string_of(&link);
        match parse_url(link_str.as_str()) {
            Some(p) => {
                let u = chars_of(relocate_url(string_of(host).as_str(), &p).as_str());
                assert(parsed_url(link@) == Some(p.parts()));
                assert(zhgxtv_url(host@, link@) == Some(u@));
                u
            },
            None => return None,
        }
    } else if link.len() > 0 && link[0] == '/' {
        let mut u = chars_of("http://");
        extend_chars(&mut u, host);
        extend_chars(&mut u, &link);
        u
    } else {
        let mut u = chars_of("http://");
        extend_chars(&mut u, host);
        extend_chars(&mut u, &chars_of("/"));
        extend_chars(&mut u, &link);
        u
    };
    assert(zhgxtv_url(host@, link@) == Some(url@));
    Some(Channel { name: string_of(&name), url: string_of(&url) })
}

/// The channels that a zhgxtv channel list `body` names, in order.
pub fn zhgxtv_channels(host: &str, body: &str) -> (r: Vec<Channel>)
    ensures
        channel_views(r@) == split_on(body@, '\n').filter_map(
            |l: Seq<char>| zhgxtv_channel(host@, l),
        ),
{
    let h = chars_of(host);
    let lines = split_chars(&chars_of(body), '\n');
    let ghost lv = lines@.map_values(|l: Vec<char>| l@);
    let ghost f = |l: Seq<char>| zhgxtv_channel(host@, l);
    let mut out: Vec<Channel> = Vec::new();
    let mut i: usize = 0;
    while i < lines.len()
        invariant
            i <= lines.len() == lv.len(),
            h@ == host@,
            lv == lines@.map_values(|l: Vec<char>| l@),
            f == (|l: Seq<char>| zhgxtv_channel(host@, l)),
            channel_views(out@) == lv.take(i as int).filter_map(f),
        decreases lines.len() - i,
    {
        proof {
            lv.lemma_filter_map_take_succ(f, i as int);
        }
        match zhgxtv_one(&h, &lines[i]) {
            Some(c) => {
                out.push(c);
                assert(channel_views(out@) =~= lv.take(i as int).filter_map(f) + seq![
                    c@,
                ]);
            },
            None => {
                assert(channel_views(out@) =~= lv.take(i as int).filter_map(f) + Seq::<
                    ChannelView,
                >::empty());
            },
        }
        i += 1;
    }
    assert(lv.take(lines.len() as int) =~= lv);
    out
}

/// What a host test measures and returns: the URL of the first channel
/// listed (none when the list is empty), and the list itself when the
/// channels are wanted, else nothing.
pub fn measure_plan(channels: Vec<Channel>, want_channels: bool) -> (r: (
    Option<String>,
    Vec<Channel>,
))
    ensures
        opt_string_view(r.0) == if channels@.len() > 0 {
            Some(channels@[0].url@)
        } else {
            None::<Seq<char>>
        },
        channel_views(r.1@) == if want_channels {
            channel_views(channels@)
        } else {
            Seq::<ChannelView>::empty()
        },
{
    let first = if channels.len() > 0 {
        Some(channels[0].url.clone())
    } else {
        None
    };
    if want_channels {
        (first, channels)
    } else {
        let none: Vec<Channel> = Vec::new();
        assert(channel_views(none@) =~= Seq::<ChannelView>::empty());
        (first, none)
    }
}

// ── Source types ───────────────────────────────────────────────────

/// The kinds of API host, by the `matchType` that the API reports.
#[derive(PartialEq, Eq, Structural, Clone, Copy, Debug)]
pub enum MatchType {
    Txiptv,
    Hsmdtv,
    Jsmpeg,
    Zhgxtv,
    Other,
}

pub open spec fn match_type_of(s: Seq<char>) -> MatchType {
    if s == "txiptv"@ {
        MatchType::Txiptv
    } else if s == "hsmdtv"@ {
        MatchType::Hsmdtv
    } else if s == "jsmpeg"@ {
        MatchType::Jsmpeg
    } else if s == "zhgxtv"@ {
        MatchType::Zhgxtv
    } else {
        MatchType::Other
    }
}

/// The kind of host that a `matchType` names.
pub fn classify_match_type(s: &str) -> (m: MatchType)
    ensures
        m == match_type_of(s@),
{
    let v = chars_of(s);
    if chars_equal(&v, &chars_of("txiptv")) {
        MatchType::Txiptv
    } else if chars_equal(&v, &chars_of("hsmdtv")) {
        MatchType::Hsmdtv
    } else if chars_equal(&v, &chars_of("jsmpeg")) {
        MatchType::Jsmpeg
    } else if chars_equal(&v, &chars_of("zhgxtv")) {
        MatchType::Zhgxtv
    } else {
        MatchType::Other
    }
}

/// Whether the channels of a host of this kind are read from the host
/// itself (txiptv, jsmpeg and zhgxtv hosts list them).
pub fn lists_channels(m: MatchType) -> (r: bool)
    ensures
        r == (m is Txiptv || m is Jsmpeg || m is Zhgxtv),
{
    match m {
        MatchType::Txiptv | MatchType::Jsmpeg | MatchType::Zhgxtv => true,
        _ => false,
    }
}

// ── API hosts ──────────────────────────────────────────────────────

/// A host as the API lists it.
pub struct ApiItem {
    pub host: String,
    pub match_type: String,
    pub source: String,
}

/// Whether a listed host is tested at all: it must name a host.
pub fn api_item_testable(item: &ApiItem) -> (r: bool)
    ensures
        r == (item.host@.len() > 0),
{
    !string_is_empty(&item.host)
}

/// The result kept for a tested host: the host, its type and source, and
/// its speed, when the speed reaches `low`; no channels yet.
pub fn api_result(item: &ApiItem, speed: Speed, low: Speed) -> (r: Option<SourceResult>)
    ensures
        match r {
            Some(s) => speed >= low && s@ == (SourceView {
                host: item.host@,
                match_type: item.match_type@,
                source: item.source@,
                speed,
                channels: Seq::empty(),
            }),
            None => speed < low,
        },
{
    if speed >= low {
        let s = SourceResult {
            host: item.host.clone(),
            match_type: item.match_type.clone(),
            source: item.source.clone(),
            speed,
            channels: Vec::new(),
        };
        assert(s@.channels =~= Seq::<ChannelView>::empty());
        Some(s)
    } else {
        None
    }
}

// ── Progress ───────────────────────────────────────────────────────

/// How many of `total` tests are done, and how many of those passed.
pub struct Progress {
    pub completed: usize,
    pub valid: usize,
    pub total: usize,
}

impl Progress {
    pub open spec fn consistent(self) -> bool {
        self.valid <= self.completed <= self.total
    }

    pub fn new(total: usize) -> (p: Progress)
        ensures
            p.completed == 0 && p.valid == 0 && p.total == total,
            p.consistent(),
    {
        Progress { completed: 0, valid: 0, total }
    }

    /// Counts one more finished test; returns the new counts.
    pub fn record(&mut self, passed: bool) -> (r: (usize, usize))
        requires
            old(self).consistent(),
            old(self).completed < old(self).total,
        ensures
            final(self).completed == old(self).completed + 1,
            final(self).valid == old(self).valid + if passed {
                1int
            } else {
                0int
            },
            final(self).total == old(self).total,
            final(self).consistent(),
            r == (final(self).completed, final(self).valid),
    {
        self.completed = self.completed + 1;
        if passed {
            self.valid = self.valid + 1;
        }
        (self.completed, self.valid)
    }
}

/// Width of the progress bar.
pub const BAR_WIDTH: usize = 30;

pub open spec fn repeated(c: char, n: int) -> Seq<char> {
    Seq::new(n as nat, |i: int| c)
}

/// The progress bar: one `=` per finished thirtieth, `-` for the rest.
pub open spec fn progress_bar_text(completed: int, total: int) -> Seq<char> {
    let filled = BAR_WIDTH * completed / total;
    repeated('=', filled) + repeated('-', BAR_WIDTH - filled)
}

pub fn progress_bar(completed: usize, total: usize) -> (r: String)
    requires
        0 < total,
        completed <= total,
    ensures
        r@ == progress_bar_text(completed as int, total as int),
{
    let prod: u128 = 30u128 * (completed as u128);
    let q: u128 = prod / (total as u128);
    assert(q <= 30) by (nonlinear_arith)
        requires
            q as int == prod as int / (total as int),
            prod == 30 * completed,
            completed <= total,
            0 < total,
    ;
    let filled: usize = q as usize;
    assert(filled as int == (BAR_WIDTH as int * completed as int) / (total as int));
    let mut bar: Vec<char> = Vec::new();
    let mut i: usize = 0;
    while i < BAR_WIDTH
        invariant
            filled <= BAR_WIDTH,
            i <= BAR_WIDTH,
            bar@ =~= if i <= filled {
                repeated('=', i as int)
            } else {
                repeated('=', filled as int) + repeated('-', i - filled)
            },
        decreases BAR_WIDTH - i,
    {
        if i < filled {
            bar.push('=');
        } else {
            bar.push('-');
        }
        i += 1;
    }
    string_of(&bar)
}

// ── Measuring a download ───────────────────────────────────────────

/// A download stops after this many bytes.
pub const MAX_TEST_BYTES: u64 = 10485760;

/// Whether a speed download is over: past the byte cap, past the test time,
/// or past the host's deadline.
pub fn download_done(bytes: u64, elapsed_nanos: u64, past_deadline: bool) -> (r: bool)
    ensures
        r == (bytes > MAX_TEST_BYTES || elapsed_nanos > SPEED_TEST_SECS * 1000000000
            || past_deadline),
{
    bytes > MAX_TEST_BYTES || elapsed_nanos > SPEED_TEST_SECS * 1000000000 || past_deadline
}

/// The rate of a download, in bytes per second, counting at least one
/// millisecond and at most `i64::MAX`.
pub fn transfer_rate(bytes: u64, elapsed_nanos: u64) -> (r: Speed)
    ensures
        r == if bytes * 1000000000 / (if elapsed_nanos < 1000000 {
            1000000
        } else {
            elapsed_nanos as int
        }) > i64::MAX {
            i64::MAX as int
        } else {
            bytes * 1000000000 / (if elapsed_nanos < 1000000 {
                1000000
            } else {
                elapsed_nanos as int
            })
        },
{
    let d: u64 = if elapsed_nanos < 1000000 {
        1000000
    } else {
        elapsed_nanos
    };
    assert(bytes * 1000000000 <= u128::MAX) by (nonlinear_arith)
        requires
            bytes <= u64::MAX,
    ;
    let rate: u128 = (bytes as u128 * 1000000000) / d as u128;
    if rate > i64::MAX as u128 {
        i64::MAX
    } else {
        rate as i64
    }
}

/// A host whose rate is under `low` counts as failed.
pub fn kept_host_speed(speed: Speed, low: Speed) -> (r: Speed)
    ensures
        r == if speed < low {
            FAILED_SPEED
        } else {
            speed
        },
{
    if speed < low {
        FAILED_SPEED
    } else {
        speed
    }
}

// ── Subscription hosts ─────────────────────────────────────────────

/// The host part of a URL, by which subscription channels are grouped: the
/// text after the first "://" (or the whole URL when it has none) up to the
/// first `/`.
pub open spec fn host_key_of(url: Seq<char>) -> Seq<char> {
    let sep = "://"@;
    let rest = if contains(url, sep) {
        url.skip((choose|k: int| is_first_occurrence(url, sep, k)) + sep.len())
    } else {
        url
    };
    rest.take(first_index_of(rest, '/'))
}

pub fn host_key(url: &str) -> (r: String)
    ensures
        r@ == host_key_of(url@),
{
    let v = chars_of(url);
    let sep = chars_of("://");
    let rest = match find_infix(&v, &sep) {
        Some(i) => {
            proof {
                lemma_first_occurrence_unique(v@, sep@, i as int);
            }
            assert(v@.skip(i + sep.len()) =~= v@.subrange(i + sep.len(), v.len() as int));
            slice_chars(&v, i + sep.len(), v.len())
        },
        None => v,
    };
    let end = match find_char(&rest, '/') {
        Some(e) => e,
        None => rest.len(),
    };
    proof {
        lemma_first_index_of(rest@, '/', end as int);
    }
    assert(rest@.take(end as int) =~= rest@.subrange(0, end as int));
    string_of(&slice_chars(&rest, 0, end))
}

/// One channel to test per host: the host key and the URL of the first
/// channel on that host.
pub struct HostSample {
    pub host: String,
    pub url: String,
}

pub ghost struct HostSampleView {
    pub host: Seq<char>,
    pub url: Seq<char>,
}

pub open spec fn sample_views(s: Seq<HostSample>) -> Seq<HostSampleView> {
    s.map_values(|x: HostSample| HostSampleView { host: x.host@, url: x.url@ })
}

pub open spec fn has_sample(s: Seq<HostSampleView>, host: Seq<char>) -> bool {
    exists|i: int| 0 <= i < s.len() && s[i].host == host
}

/// The hosts of `channels` in order of first appearance, each with the URL
/// of its first channel.
pub open spec fn host_samples(channels: Seq<ChannelView>) -> Seq<HostSampleView>
    decreases channels.len(),
{
    if channels.len() == 0 {
        Seq::<HostSampleView>::empty()
    } else {
        let prev = host_samples(channels.drop_last());
        let k = host_key_of(channels.last().url);
        if has_sample(prev, k) {
            prev
        } else {
            prev.push(HostSampleView { host: k, url: channels.last().url })
        }
    }
}

fn find_sample(samples: &Vec<HostSample>, host: &String) -> (r: bool)
    ensures
        r == has_sample(sample_views(samples@), host@),
{
    let mut i: usize = 0;
    while i < samples.len()
        invariant
            i <= samples.len(),
            forall|k: int| 0 <= k < i ==> samples@[k].host@ != host@,
        decreases samples.len() - i,
    {
        if samples[i].host == *host {
            assert(sample_views(samples@)[i as int].host == host@);
            return true;
        }
        i += 1;
    }
    assert forall|k: int| 0 <= k < samples.len() implies sample_views(samples@)[k].host
        != host@ by {
        assert(sample_views(samples@)[k].host == samples@[k].host@);
    }
    false
}

/// The hosts of the subscription channels, each with one channel to test.
pub fn unique_hosts(channels: &Vec<Channel>) -> (r: Vec<HostSample>)
    ensures
        sample_views(r@) == host_samples(channel_views(channels@)),
{
    let ghost cv = channel_views(channels@);
    let mut out: Vec<HostSample> = Vec::new();
    let mut i: usize = 0;
    assert(cv.take(0) =~= Seq::<ChannelView>::empty());
    while i < channels.len()
        invariant
            i <= channels.len(),
            cv == channel_views(channels@),
            sample_views(out@) == host_samples(cv.take(i as int)),
        decreases channels.len() - i,
    {
        assert(cv.take(i + 1).drop_last() =~= cv.take(i as int));
        assert(cv.take(i + 1).last() == channels@[i as int]@);
        let k = host_key(channels[i].url.as_str());
        if !find_sample(&out, &k) {
            let ghost prev = sample_views(out@);
            out.push(HostSample { host: k, url: channels[i].url.clone() });
            assert(sample_views(out@) =~= prev.push(
                HostSampleView { host: host_key_of(cv[i as int].url), url: cv[i as int].url },
            ));
        }
        i += 1;
    }
    assert(cv.take(channels.len() as int) =~= cv);
    out
}

/// Whether a subscription URL is measured through its HLS playlist (its
/// lower-cased form holds ".m3u8", "/hls/" or "/live/") rather than
/// downloaded directly.
pub fn is_playlist_url(url: &str) -> (r: bool)
    ensures
        r == (contains(lowercase(url@), ".m3u8"@) || contains(lowercase(url@), "/hls/"@)
            || contains(lowercase(url@), "/live/"@)),
{
    let lower = to_lowercase(url);
    let v = chars_of(lower.as_str());
    has_infix(&v, &chars_of(".m3u8")) || has_infix(&v, &chars_of("/hls/")) || has_infix(
        &v,
        &chars_of("/live/"),
    )
}

} // verus!
