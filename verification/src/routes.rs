//! Request handling rules of the HTTP API: track windows, heatmap tile
//! proxying, and the reconnect backoff of the live feed.
use vstd::prelude::*;
use crate::gfw::gfw_base;
use crate::text::{dec_digits, push_decimal, push_str, string_from_chars};

verus! {

/// Query parameters of a track request.
#[derive(Debug, Clone, Copy, PartialEq, Eq)]
pub struct TrackParams {
    pub from_ns: Option<i64>,
    pub to_ns: Option<i64>,
}

/// One day in nanoseconds.
pub const DAY_NS: i64 = 86_400_000_000_000;

impl TrackParams {
    /// The time window of a track request made at `now_ns`: the given
    /// bounds, defaulting to the last 24 hours.
    pub fn window(&self, now_ns: i64) -> (w: (i64, i64))
        requires
            now_ns >= i64::MIN + DAY_NS,
        ensures
            w.0 == (match self.from_ns {
                Some(f) => f as int,
                None => now_ns - DAY_NS,
            }),
            w.1 == (match self.to_ns {
                Some(t) => t,
                None => now_ns,
            }),
    {
        let default_from = now_ns - DAY_NS;
        let from = match self.from_ns {
            Some(f) => f,
            None => default_from,
        };
        let to = match self.to_ns {
            Some(t) => t,
            None => now_ns,
        };
        (from, to)
    }
}

/// Query parameters forwarded to a heatmap tile request.
#[derive(Debug, Clone, PartialEq, Eq)]
pub struct TileParams {
    pub date_range: Option<String>,
}

impl TileParams {
    /// The date range to request: the one given, else `{from},{to}`.
    pub fn date_range_or(&self, from: &str, to: &str) -> (r: String)
        ensures
            r@ == (match self.date_range {
                Some(d) => d@,
                None => from@ + seq![','] + to@,
            }),
    {
        match &self.date_range {
            Some(d) => d.clone(),
            None => {
                let mut out: Vec<char> = Vec::new();
                push_str(&mut out, from);
                out.push(',');
                push_str(&mut out, to);
                string_from_chars(&out)
            },
        }
    }
}

/// URL of the GFW heatmap tile `z/x/y` of `dataset` over `date_range`.
pub open spec fn tile_url_of(dataset: Seq<char>, z: u32, x: u32, y: u32, date_range: Seq<char>) -> Seq<char> {
    gfw_base() + "/v3/4wings/tile/heatmap/"@ + dec_digits(z as nat) + seq!['/'] + dec_digits(
        x as nat,
    ) + seq!['/'] + dec_digits(y as nat) + "?datasets[0]="@ + dataset + "&date-range="@
        + date_range + "&temporal-aggregation=true&format=PNG"@
}

/// The upstream URL of a proxied heatmap tile.
pub fn tile_url(dataset: &str, z: u32, x: u32, y: u32, date_range: &str) -> (u: String)
    ensures
        u@ == tile_url_of(dataset@, z, x, y, date_range@),
{
    let mut out: Vec<char> = Vec::new();
    push_str(&mut out, "https://gateway.api.globalfishingwatch.org");
    push_str(&mut out, "/v3/4wings/tile/heatmap/");
    push_decimal(&mut out, z as u64);
    out.push('/');
    push_decimal(&mut out, x as u64);
    out.push('/');
    push_decimal(&mut out, y as u64);
    push_str(&mut out, "?datasets[0]=");
    push_str(&mut out, dataset);
    push_str(&mut out, "&date-range=");
    push_str(&mut out, date_range);
    push_str(&mut out, "&temporal-aggregation=true&format=PNG");
    assert(out@ =~= tile_url_of(dataset@, z, x, y, date_range@));
    string_from_chars(&out)
}

/// Dataset of the vessel-presence heatmap.
pub fn presence_dataset() -> (s: &'static str)
    ensures
        s@ == "public-global-presence:latest"@,
{
    "public-global-presence:latest"
}

/// Dataset of the fishing-effort heatmap.
pub fn fishing_dataset() -> (s: &'static str)
    ensures
        s@ == "public-global-fishing-effort:latest"@,
{
    "public-global-fishing-effort:latest"
}

/// Delay before the first reconnect to the live feed, milliseconds.
pub const INITIAL_RETRY_MS: u64 = 3_000;

/// Longest delay between reconnects, milliseconds.
pub const MAX_RETRY_MS: u64 = 30_000;

/// The next reconnect delay: double the last one, at most 30 s.
pub fn next_retry_ms(retry_ms: u64) -> (r: u64)
    requires
        retry_ms <= u64::MAX / 2,
    ensures
        r == (if 2 * retry_ms < 30_000 { 2 * retry_ms } else { 30_000 }),
{
    let doubled = retry_ms * 2;
    if doubled < MAX_RETRY_MS {
        doubled
    } else {
        MAX_RETRY_MS
    }
}

/// Starting from the initial delay, the reconnect delay never exceeds 30 s
/// and never falls below 3 s, so `next_retry_ms` can always be applied again.
pub proof fn law_retry_bounded(retry_ms: u64)
    requires
        INITIAL_RETRY_MS <= retry_ms <= MAX_RETRY_MS,
    ensures
        ({
            let r = if 2 * retry_ms < 30_000 { 2 * retry_ms } else { 30_000 };
            INITIAL_RETRY_MS <= r <= MAX_RETRY_MS && r >= retry_ms
        }),
{
}

} // verus!
