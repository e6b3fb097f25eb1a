use vstd::prelude::*;
use crate::config::DEFAULT_SUB_URL;
use crate::text::{
    push_zero_padded, zero_padded,
    all_blank, chars_of, extend_chars, is_blank, string_of, string_views, trim, trim_chars,
};
use crate::task::{
    after_collecting, after_probing, collecting_action, probing_action, RunAction,
};
use crate::types::Speed;

verus! {

broadcast use vstd::seq_lib::group_seq_properties;

// ── Command line ───────────────────────────────────────────────────

/// The command-line settings, once parsed.
pub struct Cli {
    pub port: u16,
    pub workers: usize,
    pub top_n: usize,
    pub per_channel: usize,
    pub speed_low: Speed,
    pub min_resolution: u32,
    pub cron: String,
    pub timezone: String,
    pub dir: Option<String>,
    pub url1: Option<String>,
    pub url2: Option<String>,
    pub url3: Option<String>,
    pub url4: Option<String>,
    pub url5: Option<String>,
    pub url6: Option<String>,
    pub url7: Option<String>,
    pub url8: Option<String>,
    pub url9: Option<String>,
    pub url10: Option<String>,
    pub url11: Option<String>,
    pub url12: Option<String>,
    pub url13: Option<String>,
    pub url14: Option<String>,
    pub url15: Option<String>,
    pub url16: Option<String>,
    pub url17: Option<String>,
    pub url18: Option<String>,
    pub url19: Option<String>,
    pub url20: Option<String>,
}

/// The strings given, in order, skipping the missing ones.
pub open spec fn given_urls(opts: Seq<Option<String>>) -> Seq<Seq<char>>
    decreases opts.len(),
{
    if opts.len() == 0 {
        Seq::<Seq<char>>::empty()
    } else {
        let prev = given_urls(opts.drop_last());
        match opts.last() {
            Some(u) => prev.push(u@),
            None => prev,
        }
    }
}

/// The built-in subscription, trimmed, where it is not empty.
pub open spec fn default_urls() -> Seq<Seq<char>> {
    if trim(DEFAULT_SUB_URL@).len() > 0 {
        seq![trim(DEFAULT_SUB_URL@)]
    } else {
        Seq::<Seq<char>>::empty()
    }
}

pub open spec fn not_blank(u: Seq<char>) -> bool {
    !is_blank(u)
}

impl Cli {
    pub open spec fn url_options(self) -> Seq<Option<String>> {
        seq![
            self.url1, self.url2, self.url3, self.url4, self.url5, self.url6, self.url7,
            self.url8, self.url9, self.url10, self.url11, self.url12, self.url13, self.url14,
            self.url15, self.url16, self.url17, self.url18, self.url19, self.url20,
        ]
    }

    /// The subscription URLs to fetch: `--url1` to `--url20` in order, then
    /// the built-in one, leaving out those that are empty or blank.
    pub open spec fn subscription_urls(self) -> Seq<Seq<char>> {
        (given_urls(self.url_options()) + default_urls()).filter(|u: Seq<char>| not_blank(u))
    }

    pub fn collect_urls(&self) -> (urls: Vec<String>)
        ensures
            string_views(urls@) == self.subscription_urls(),
    {
        let opts: Vec<&Option<String>> = vec![
            &self.url1, &self.url2, &self.url3, &self.url4, &self.url5, &self.url6, &self.url7,
            &self.url8, &self.url9, &self.url10, &self.url11, &self.url12, &self.url13,
            &self.url14, &self.url15, &self.url16, &self.url17, &self.url18, &self.url19,
            &self.url20,
        ];
        let ghost ov = opts@.map_values(|o: &Option<String>| *o);
        assert(ov =~= self.url_options());
        let mut all: Vec<String> = Vec::new();
        let mut i: usize = 0;
        assert(ov.take(0) =~= Seq::<Option<String>>::empty());
        while i < opts.len()
            invariant
                i <= opts.len() == ov.len(),
                ov == opts@.map_values(|o: &Option<String>| *o),
                string_views(all@) == given_urls(ov.take(i as int)),
            decreases opts.len() - i,
        {
            assert(ov.take(i + 1).drop_last() =~= ov.take(i as int));
            assert(ov.take(i + 1).last() == *opts@[i as int]);
            match opts[i] {
                Some(u) => {
                    all.push(u.clone());
                    assert(string_views(all@) =~= given_urls(ov.take(i as int)).push(u@));
                },
                None => {},
            }
            i += 1;
        }
        assert(ov.take(20) =~= ov);
        let ghost given = string_views(all@);
        let default_url = trim_chars(&chars_of(DEFAULT_SUB_URL));
        if default_url.len() > 0 {
            all.push(string_of(&default_url));
        }
        assert(string_views(all@) =~= given + default_urls());
        let ghost everything = string_views(all@);
        let mut urls: Vec<String> = Vec::new();
        let mut k: usize = 0;
        while k < all.len()
            invariant
                k <= all.len(),
                everything == string_views(all@),
                string_views(urls@) == everything.take(k as int).filter(
                    |u: Seq<char>| not_blank(u),
                ),
            decreases all.len() - k,
        {
            assert(everything.take(k + 1) =~= everything.take(k as int).push(everything[k as int]));
            proof {
                everything.take(k as int).lemma_filter_push(
                    everything[k as int],
                    |u: Seq<char>| not_blank(u),
                );
            }
            if !all_blank(&chars_of(all[k].as_str())) {
                urls.push(all[k].clone());
                assert(string_views(urls@) =~= everything.take(k as int).filter(
                    |u: Seq<char>| not_blank(u),
                ).push(everything[k as int]));
            }
            k += 1;
        }
        assert(everything.take(all.len() as int) =~= everything);
        urls
    }
}

/// The six-field expression that the scheduler reads: a `0` seconds field
/// before the five fields given.
pub fn cron_expression(cron: &str) -> (r: String)
    ensures
        r@ == "0 "@ + trim(cron@),
{
    let mut v = chars_of("0 ");
    extend_chars(&mut v, &trim_chars(&chars_of(cron)));
    string_of(&v)
}

// ── Start-up ───────────────────────────────────────────────────────

/// A run starts at once unless both playlists of an earlier run are in
/// the data directory; then the service waits for the schedule.
pub fn startup_needs_run(m3u8_cached: bool, txt_cached: bool) -> (r: bool)
    ensures
        r == !(m3u8_cached && txt_cached),
{
    !(m3u8_cached && txt_cached)
}

/// The time of the last run shown at start-up: the time of the cached
/// playlist, "cached (unknown time)" when that is not known, or "Never"
/// without a cache.
pub fn initial_last_run(cache_exists: bool, cache_time: Option<String>) -> (r: String)
    ensures
        r@ == if !cache_exists {
            "Never"@
        } else {
            match cache_time {
                Some(t) => t@,
                None => "cached (unknown time)"@,
            }
        },
{
    if !cache_exists {
        String::from_str("Never")
    } else {
        match cache_time {
            Some(t) => t,
            None => String::from_str("cached (unknown time)"),
        }
    }
}

/// A time as `YYYY-MM-DD HH:MM:SS`, each field zero-padded.
pub open spec fn timestamp_text(y: nat, mo: nat, d: nat, h: nat, mi: nat, s: nat) -> Seq<char> {
    zero_padded(y, 4) + "-"@ + zero_padded(mo, 2) + "-"@ + zero_padded(d, 2) + " "@ + zero_padded(
        h,
        2,
    ) + ":"@ + zero_padded(mi, 2) + ":"@ + zero_padded(s, 2)
}

/// Writes the time of a run as `YYYY-MM-DD HH:MM:SS`.
pub fn format_timestamp(year: u32, month: u32, day: u32, hour: u32, minute: u32, second: u32) -> (r:
    String)
    ensures
        r@ == timestamp_text(
            year as nat,
            month as nat,
            day as nat,
            hour as nat,
            minute as nat,
            second as nat,
        ),
{
    let mut v: Vec<char> = Vec::new();
    push_zero_padded(&mut v, year as u64, 4);
    assert(v@ =~= zero_padded(year as nat, 4));
    extend_chars(&mut v, &chars_of("-"));
    push_zero_padded(&mut v, month as u64, 2);
    extend_chars(&mut v, &chars_of("-"));
    push_zero_padded(&mut v, day as u64, 2);
    extend_chars(&mut v, &chars_of(" "));
    push_zero_padded(&mut v, hour as u64, 2);
    extend_chars(&mut v, &chars_of(":"));
    push_zero_padded(&mut v, minute as u64, 2);
    extend_chars(&mut v, &chars_of(":"));
    push_zero_padded(&mut v, second as u64, 2);
    string_of(&v)
}

// ── Shared results ─────────────────────────────────────────────────

/// The playlists served and the time of the run that made them.
pub struct SharedData {
    pub m3u8: String,
    pub txt: String,
    pub last_run: String,
}

impl Default for SharedData {
    fn default() -> (d: SharedData)
        ensures
            d.m3u8@ == Seq::<char>::empty(),
            d.txt@ == Seq::<char>::empty(),
            d.last_run@ == Seq::<char>::empty(),
    {
        SharedData { m3u8: String::new(), txt: String::new(), last_run: String::new() }
    }
}

// ── Run flag ───────────────────────────────────────────────────────

/// Where a speed-test run stands.
#[derive(PartialEq, Eq, Structural, Clone, Copy, Debug)]
pub enum RunStage {
    /// No run under way.
    Idle,
    /// The run is collecting entries from its sources.
    Collecting,
    /// The run is probing its entries for their resolution.
    Probing,
    /// The run is writing and serving its playlists.
    Publishing,
}

/// Whether a run may start when the flag stands at `stage`.
pub open spec fn may_start(stage: RunStage) -> bool {
    stage == RunStage::Idle
}

/// The stage after collecting `entry_count` entries: the run ends when
/// there are none, else goes on to probe them or to publish them.
pub open spec fn collected_stage(entry_count: nat, min_res: u32) -> RunStage {
    match collecting_action(entry_count, min_res) {
        RunAction::KeepCache => RunStage::Idle,
        RunAction::ProbeResolution(_) => RunStage::Probing,
        RunAction::Publish => RunStage::Publishing,
    }
}

/// The stage after the resolution filter left `entry_count` entries: the
/// run ends when there are none, else goes on to publish them.
pub open spec fn probed_stage(entry_count: nat) -> RunStage {
    match probing_action(entry_count) {
        RunAction::KeepCache => RunStage::Idle,
        _ => RunStage::Publishing,
    }
}

/// Whether a speed-test run is under way, and at which stage; at most one
/// runs at a time.
pub struct RunFlag {
    stage: RunStage,
}

impl View for RunFlag {
    type V = RunStage;

    closed spec fn view(&self) -> RunStage {
        self.stage
    }
}

impl RunFlag {
    /// No run under way.
    pub fn new() -> (f: RunFlag)
        ensures
            f@ == RunStage::Idle,
    {
        RunFlag { stage: RunStage::Idle }
    }

    /// Starts a run, collecting, if none is under way; says whether it did.
    /// A run under way is left as it is.
    pub fn try_start(&mut self) -> (started: bool)
        ensures
            started == may_start(old(self)@),
            final(self)@ == if started {
                RunStage::Collecting
            } else {
                old(self)@
            },
    {
        if self.stage == RunStage::Idle {
            self.stage = RunStage::Collecting;
            true
        } else {
            false
        }
    }

    /// The run collected `entry_count` entries: says what it does next,
    /// and ends it when there is nothing to publish.
    pub fn collected(&mut self, entry_count: usize, min_res: u32) -> (r: RunAction)
        ensures
            r == collecting_action(entry_count as nat, min_res),
            final(self)@ == collected_stage(entry_count as nat, min_res),
    {
        let r = after_collecting(entry_count, min_res);
        self.stage = match r {
            RunAction::KeepCache => RunStage::Idle,
            RunAction::ProbeResolution(_) => RunStage::Probing,
            RunAction::Publish => RunStage::Publishing,
        };
        r
    }

    /// The resolution filter left `entry_count` entries: says what the run
    /// does next, and ends it when there is nothing to publish.
    pub fn probed(&mut self, entry_count: usize) -> (r: RunAction)
        ensures
            r == probing_action(entry_count as nat),
            final(self)@ == probed_stage(entry_count as nat),
    {
        let r = after_probing(entry_count);
        self.stage = match r {
            RunAction::KeepCache => RunStage::Idle,
            _ => RunStage::Publishing,
        };
        r
    }

    /// The run published its playlists, and is over.
    pub fn published(&mut self)
        ensures
            final(self)@ == RunStage::Idle,
    {
        self.stage = RunStage::Idle;
    }
}

/// Whether a run is under way.
pub fn is_running(flag: &RunFlag) -> (r: bool)
    ensures
        r == (flag@ != RunStage::Idle),
{
    flag.stage != RunStage::Idle
}

/// One run at a time: a run starts only while no run is under way, and
/// starting takes the flag, so a second start fails until the run ends.
pub proof fn law_one_run_at_a_time(stage: RunStage)
    ensures
        may_start(stage) <==> stage == RunStage::Idle,
        !may_start(RunStage::Collecting),
        !may_start(RunStage::Probing),
        !may_start(RunStage::Publishing),
{
}

/// A run frees the flag on each of its exits, and only there: when it
/// collected nothing, when the resolution filter left nothing, and once it
/// has published; on every other step it is still under way.
pub proof fn law_every_exit_frees_the_flag(entry_count: nat, min_res: u32, probed_count: nat)
    ensures
        collected_stage(entry_count, min_res) == RunStage::Idle <==> collecting_action(
            entry_count,
            min_res,
        ) == RunAction::KeepCache,
        probed_stage(probed_count) == RunStage::Idle <==> probing_action(probed_count)
            == RunAction::KeepCache,
        collected_stage(entry_count, min_res) == RunStage::Idle <==> entry_count == 0,
        probed_stage(probed_count) == RunStage::Idle <==> probed_count == 0,
{
}

/// The stages the flag stands at over a whole run, from its start: it
/// collects `entry_count` entries, and when it probes them the resolution
/// filter leaves `probed_count`. Each stage is the one the step before it
/// leads to: `try_start`, then `collected`, then `probed` when it probes,
/// then `published` when it publishes.
pub open spec fn run_stages(entry_count: nat, min_res: u32, probed_count: nat) -> Seq<RunStage> {
    match collected_stage(entry_count, min_res) {
        RunStage::Probing => match probed_stage(probed_count) {
            RunStage::Publishing => seq![
                RunStage::Collecting,
                RunStage::Probing,
                RunStage::Publishing,
                RunStage::Idle,
            ],
            other => seq![RunStage::Collecting, RunStage::Probing, other],
        },
        RunStage::Publishing => seq![RunStage::Collecting, RunStage::Publishing, RunStage::Idle],
        other => seq![RunStage::Collecting, other],
    }
}

/// Over a whole run the flag is held exactly from the start to the last
/// step: the run is under way, and a second run cannot start, at every
/// stage before its last step; after the last step the flag is free.
pub proof fn law_flag_held_for_the_whole_run(entry_count: nat, min_res: u32, probed_count: nat)
    ensures
        ({
            let stages = run_stages(entry_count, min_res, probed_count);
            &&& stages.len() >= 2
            &&& stages[0] == RunStage::Collecting
            &&& stages.last() == RunStage::Idle
            &&& forall|i: int| 0 <= i < stages.len() - 1 ==> stages[i] != RunStage::Idle
            &&& forall|i: int| 0 <= i < stages.len() - 1 ==> !may_start(#[trigger] stages[i])
        }),
{
}

} // verus!
