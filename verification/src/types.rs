use vstd::prelude::*;
use crate::order::{views, Rated, Timed};

verus! {

/// A transfer rate in bytes per second. A negative rate marks a source
/// that could not be measured.
pub type Speed = i64;

/// The rate reported for a source that could not be measured.
pub const FAILED_SPEED: Speed = -1;

/// A named stream.
pub struct Channel {
    pub name: String,
    pub url: String,
}

/// What a [`Channel`] holds, as character sequences.
pub ghost struct ChannelView {
    pub name: Seq<char>,
    pub url: Seq<char>,
}

impl View for Channel {
    type V = ChannelView;

    open spec fn view(&self) -> ChannelView {
        ChannelView { name: self.name@, url: self.url@ }
    }
}

pub open spec fn channel_views(s: Seq<Channel>) -> Seq<ChannelView> {
    s.map_values(|c: Channel| c@)
}

impl Channel {
    pub fn new(name: String, url: String) -> (c: Channel)
        ensures
            c@ == (ChannelView { name: name@, url: url@ }),
    {
        Channel { name, url }
    }

    /// A copy of the channel.
    pub fn duplicate(&self) -> (c: Channel)
        ensures
            c@ == self@,
    {
        Channel { name: self.name.clone(), url: self.url.clone() }
    }
}

/// A copy of a list of channels.
pub fn duplicate_channels(v: &Vec<Channel>) -> (r: Vec<Channel>)
    ensures
        channel_views(r@) == channel_views(v@),
{
    let mut r: Vec<Channel> = Vec::new();
    let mut i: usize = 0;
    while i < v.len()
        invariant
            i <= v.len(),
            r@.len() == i,
            channel_views(r@) == channel_views(v@.take(i as int)),
        decreases v.len() - i,
    {
        let ghost before = r@;
        let c = v[i].duplicate();
        r.push(c);
        assert forall|k: int| 0 <= k < i + 1 implies #[trigger] channel_views(r@)[k]
            == channel_views(v@.take(i + 1))[k] by {
            assert(r@[k] == if k < i { before[k] } else { c });
            assert(v@.take(i + 1)[k] == v@[k]);
            if k < i {
                assert(channel_views(before)[k] == channel_views(v@.take(i as int))[k]);
                assert(v@.take(i as int)[k] == v@[k]);
            }
        }
        assert(channel_views(r@) =~= channel_views(v@.take(i + 1)));
        i += 1;
    }
    assert(v@.take(v.len() as int) =~= v@);
    r
}

/// A host that passed the speed test, with the channels it carries.
pub struct SourceResult {
    pub host: String,
    pub match_type: String,
    pub source: String,
    pub speed: Speed,
    pub channels: Vec<Channel>,
}

pub ghost struct SourceView {
    pub host: Seq<char>,
    pub match_type: Seq<char>,
    pub source: Seq<char>,
    pub speed: Speed,
    pub channels: Seq<ChannelView>,
}

impl View for SourceResult {
    type V = SourceView;

    open spec fn view(&self) -> SourceView {
        SourceView {
            host: self.host@,
            match_type: self.match_type@,
            source: self.source@,
            speed: self.speed,
            channels: channel_views(self.channels@),
        }
    }
}

pub open spec fn source_views(s: Seq<SourceResult>) -> Seq<SourceView> {
    views(s)
}

impl Rated for SourceView {
    open spec fn rate(self) -> Speed {
        self.speed
    }
}

impl Timed for SourceResult {
    fn rate_value(&self) -> (r: Speed) {
        self.speed
    }
}

impl SourceResult {
    /// A copy of the result.
    pub fn duplicate(&self) -> (r: SourceResult)
        ensures
            r@ == self@,
    {
        SourceResult {
            host: self.host.clone(),
            match_type: self.match_type.clone(),
            source: self.source.clone(),
            speed: self.speed,
            channels: duplicate_channels(&self.channels),
        }
    }
}

/// One line of the output playlist: a channel of a source, with the
/// position of that source and its measured rate.
pub struct Entry {
    pub name: String,
    pub url: String,
    pub index: usize,
    pub speed: Speed,
}

pub ghost struct EntryView {
    pub name: Seq<char>,
    pub url: Seq<char>,
    pub index: usize,
    pub speed: Speed,
}

impl View for Entry {
    type V = EntryView;

    open spec fn view(&self) -> EntryView {
        EntryView { name: self.name@, url: self.url@, index: self.index, speed: self.speed }
    }
}

pub open spec fn entry_views(s: Seq<Entry>) -> Seq<EntryView> {
    views(s)
}

impl Rated for EntryView {
    open spec fn rate(self) -> Speed {
        self.speed
    }
}

impl Timed for Entry {
    fn rate_value(&self) -> (r: Speed) {
        self.speed
    }
}

impl Entry {
    /// A copy of the entry.
    pub fn duplicate(&self) -> (e: Entry)
        ensures
            e@ == self@,
    {
        Entry {
            name: self.name.clone(),
            url: self.url.clone(),
            index: self.index,
            speed: self.speed,
        }
    }
}

} // verus!
