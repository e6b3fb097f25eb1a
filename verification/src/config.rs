use vstd::prelude::*;
use crate::text::{chars_of, decimal, extend_chars, push_decimal, string_of};
use crate::types::Speed;

verus! {

pub const VERSION: &'static str = "3.0.0";

// File names inside the data directory.
pub const CACHE_M3U8: &'static str = "iptv_sources.m3u8";
pub const CACHE_TXT: &'static str = "iptv_sources.txt";
pub const CHANNEL_LIST_FILE: &'static str = "channel_list.txt";
pub const HSMD_ADDRESS_LIST_FILE: &'static str = "hsmd_address_list.txt";

// Remote endpoints.
pub const API_URL: &'static str = "https://iptvs.pes.im";
pub const EPG_URL: &'static str = "https://epg.zsdc.eu.org/t.xml";
pub const LOGO_BASE_URL: &'static str =
    "https://ghfast.top/https://raw.githubusercontent.com/Jarrey/iptv_logo/main/tv/";
pub const DEFAULT_SUB_URL: &'static str = "";

// Paths probed on each kind of IPTV host.
pub const ZHGXTV_INTERFACE: &'static str = "/ZHGXTV/Public/json/live_interface.txt";
pub const HSMDTV_TEST_URI: &'static str = "/newlive/live/hls/1/live.m3u8";

/// One MB/s, in bytes per second.
pub const MB_PER_SEC: Speed = 1048576;

// Speed tiers: at least `SPEED_HIGH` is fast, at least `SPEED_MID` normal.
pub const SPEED_HIGH: Speed = 5242880;
pub const SPEED_MID: Speed = 1048576;

/// Sources and channels slower than this are dropped (1 MB/s), unless
/// `init_speed_low` set another threshold.
pub const DEFAULT_SPEED_LOW: Speed = 1048576;

/// Only channels of at least this height (pixels) are kept, unless
/// `init_min_resolution` set another value; 0 keeps every channel.
pub const DEFAULT_MIN_RESOLUTION: u32 = 1080;

// Time limits, in seconds, and the batch size.
pub const HOST_TIMEOUT_SECS: u64 = 15;
pub const SUB_TIMEOUT_SECS: u64 = 10;
pub const SPEED_TEST_SECS: u64 = 8;
pub const BATCH_SIZE: usize = 60;

/// How many times the API host list is requested before giving up.
pub const API_FETCH_ATTEMPTS: u32 = 3;

/// Whether another request for the API host list follows attempt number
/// `attempt` (counting from 1) that failed.
pub fn retry_api_fetch(attempt: u32) -> (r: bool)
    ensures
        r == (attempt < API_FETCH_ATTEMPTS),
{
    attempt < API_FETCH_ATTEMPTS
}

/// The cache file of the `n`-th subscription: `sub_cache_<n>.txt`.
pub fn subscribe_cache_file(n: u64) -> (r: String)
    ensures
        r@ == "sub_cache_"@ + decimal(n as nat) + ".txt"@,
{
    let mut v = chars_of("sub_cache_");
    push_decimal(&mut v, n);
    extend_chars(&mut v, &chars_of(".txt"));
    string_of(&v)
}

/// Run-time settings that are each set at most once: the first value set
/// stays, later ones are ignored.
pub struct Settings {
    speed_low: Option<Speed>,
    min_resolution: Option<u32>,
    data_dir: Option<String>,
}

pub ghost struct SettingsView {
    pub speed_low: Option<Speed>,
    pub min_resolution: Option<u32>,
    pub data_dir: Option<Seq<char>>,
}

impl View for Settings {
    type V = SettingsView;

    closed spec fn view(&self) -> SettingsView {
        SettingsView {
            speed_low: self.speed_low,
            min_resolution: self.min_resolution,
            data_dir: match self.data_dir {
                Some(d) => Some(d@),
                None => None,
            },
        }
    }
}

impl SettingsView {
    pub open spec fn with_speed_low(self, v: Speed) -> SettingsView {
        if self.speed_low is Some {
            self
        } else {
            SettingsView { speed_low: Some(v), ..self }
        }
    }

    pub open spec fn speed_low_value(self) -> Speed {
        match self.speed_low {
            Some(v) => v,
            None => DEFAULT_SPEED_LOW,
        }
    }

    pub open spec fn with_min_resolution(self, v: u32) -> SettingsView {
        if self.min_resolution is Some {
            self
        } else {
            SettingsView { min_resolution: Some(v), ..self }
        }
    }

    pub open spec fn min_resolution_value(self) -> u32 {
        match self.min_resolution {
            Some(v) => v,
            None => DEFAULT_MIN_RESOLUTION,
        }
    }

    pub open spec fn with_data_dir(self, dir: Seq<char>) -> SettingsView {
        if self.data_dir is Some {
            self
        } else {
            SettingsView { data_dir: Some(dir), ..self }
        }
    }
}

impl Settings {
    /// Settings of which none is set yet.
    pub fn new() -> (s: Settings)
        ensures
            s@ == (SettingsView { speed_low: None, min_resolution: None, data_dir: None }),
    {
        Settings { speed_low: None, min_resolution: None, data_dir: None }
    }
}

/// Sets the speed threshold, unless it is already set.
pub fn init_speed_low(settings: &mut Settings, v: Speed)
    ensures
        final(settings)@ == old(settings)@.with_speed_low(v),
{
    if settings.speed_low.is_none() {
        settings.speed_low = Some(v);
    }
}

/// The speed threshold: the value set, or `DEFAULT_SPEED_LOW`.
pub fn speed_low(settings: &Settings) -> (r: Speed)
    ensures
        r == settings@.speed_low_value(),
{
    match settings.speed_low {
        Some(v) => v,
        None => DEFAULT_SPEED_LOW,
    }
}

/// Sets the minimum resolution, unless it is already set.
pub fn init_min_resolution(settings: &mut Settings, v: u32)
    ensures
        final(settings)@ == old(settings)@.with_min_resolution(v),
{
    if settings.min_resolution.is_none() {
        settings.min_resolution = Some(v);
    }
}

/// The minimum resolution (height in pixels, 0 = no filter): the value
/// set, or `DEFAULT_MIN_RESOLUTION`.
pub fn min_resolution(settings: &Settings) -> (r: u32)
    ensures
        r == settings@.min_resolution_value(),
{
    match settings.min_resolution {
        Some(v) => v,
        None => DEFAULT_MIN_RESOLUTION,
    }
}

/// Sets the data directory, unless it is already set. The caller has
/// resolved the directory (the working directory when none was given) and
/// created it.
pub fn init_data_dir(settings: &mut Settings, dir: String)
    ensures
        final(settings)@ == old(settings)@.with_data_dir(dir@),
{
    if settings.data_dir.is_none() {
        settings.data_dir = Some(dir);
    }
}

/// Whether the data directory has been set.
pub fn has_data_dir(settings: &Settings) -> (r: bool)
    ensures
        r == settings@.data_dir is Some,
{
    settings.data_dir.is_some()
}

/// The data directory; it must have been set.
pub fn data_dir(settings: &Settings) -> (r: &String)
    requires
        settings@.data_dir is Some,
    ensures
        Some(r@) == settings@.data_dir,
{
    settings.data_dir.as_ref().unwrap()
}

/// `file` adjoined to the directory `dir` (`Path::join` on Unix): an
/// absolute `file` replaces `dir`; otherwise a `/` separates the two where
/// `dir` does not already end with one.
pub open spec fn join_path(dir: Seq<char>, file: Seq<char>) -> Seq<char> {
    if file.len() > 0 && file[0] == '/' {
        file
    } else if dir.len() > 0 && dir.last() != '/' {
        dir + seq!['/'] + file
    } else {
        dir + file
    }
}

/// The path of `filename` inside the data directory; it must have been set.
pub fn data_path(settings: &Settings, filename: &str) -> (r: String)
    requires
        settings@.data_dir is Some,
    ensures
        r@ == join_path(settings@.data_dir->0, filename@),
{
    let dir = chars_of(data_dir(settings).as_str());
    let file = chars_of(filename);
    if file.len() > 0 && file[0] == '/' {
        return string_of(&file);
    }
    let mut out = dir;
    if out.len() > 0 && out[out.len() - 1] != '/' {
        out.push('/');
    }
    extend_chars(&mut out, &file);
    string_of(&out)
}

/// Setting a value a second time changes nothing; before any setting the
/// defaults hold, after the first one its value.
pub proof fn law_first_setting_wins(s: SettingsView, a: Speed, b: Speed, x: u32, y: u32, d: Seq<
    char,
>, e: Seq<char>)
    ensures
        s.with_speed_low(a).with_speed_low(b) == s.with_speed_low(a),
        s.with_min_resolution(x).with_min_resolution(y) == s.with_min_resolution(x),
        s.with_data_dir(d).with_data_dir(e) == s.with_data_dir(d),
        s.speed_low is None ==> s.speed_low_value() == DEFAULT_SPEED_LOW && s.with_speed_low(
            a,
        ).speed_low_value() == a,
        s.min_resolution is None ==> s.min_resolution_value() == DEFAULT_MIN_RESOLUTION
            && s.with_min_resolution(x).min_resolution_value() == x,
        s.data_dir is None ==> s.with_data_dir(d).data_dir == Some(d),
        s.with_speed_low(a).min_resolution == s.min_resolution,
        s.with_min_resolution(x).speed_low == s.speed_low,
{
}

} // verus!
