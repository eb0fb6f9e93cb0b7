//! Global Fishing Watch queries: request paths, the matching of vessel
//! search results, and how the evidence is weighed into a dark-activity
//! confidence.
use vstd::prelude::*;
use vstd::string::StringSliceAdditionalSpecFns;
use crate::encode::hex_digit;
use crate::text::{dec_digits, push_all, push_decimal, push_str, str_chars, string_from_chars, chars_eq};

verus! {

/// Source of a satellite vessel detection.
#[derive(Debug, Clone, Copy, PartialEq, Eq)]
pub enum DetectionSource {
    Sar,
    Viirs,
}

impl DetectionSource {
    /// The GFW dataset that holds detections of this source.
    pub fn dataset(&self) -> (s: &'static str)
        ensures
            s@ == (match self {
                DetectionSource::Sar => "sar-detections:latest"@,
                DetectionSource::Viirs => "viirs-band-detections:latest"@,
            }),
    {
        match self {
            DetectionSource::Sar => "sar-detections:latest",
            DetectionSource::Viirs => "viirs-band-detections:latest",
        }
    }
}

/// A byte that URL encoding leaves as it is: ASCII letters, digits, and
/// `-`, `.`, `_`, `~`.
pub open spec fn is_unreserved(b: u8) -> bool {
    (48 <= b <= 57) || (65 <= b <= 90) || (97 <= b <= 122) || b == 45 || b == 46 || b == 95 || b
        == 126
}

/// Percent-encoding of `bs`: unreserved bytes as themselves, every other
/// byte as `%` and two upper-case hex digits.
pub open spec fn percent_encode(bs: Seq<u8>) -> Seq<char>
    decreases bs.len(),
{
    if bs.len() == 0 {
        Seq::empty()
    } else {
        let b = bs.last();
        percent_encode(bs.drop_last()) + if is_unreserved(b) {
            seq![b as char]
        } else {
            seq!['%', hex_digit(b as int / 16), hex_digit(b as int % 16)]
        }
    }
}

/// `urlencoding::encode`: the UTF-8 bytes of `s` percent-encoded, every
/// byte but ASCII letters, digits and `-._~` written as `%XX` with
/// upper-case hex digits.
#[verifier::external_body]
fn url_encode(s: &str) -> (r: String)
    ensures
        r@ == percent_encode(s.spec_bytes()),
{
    urlencoding::encode(s).into_owned()
}

/// The GFW API origin.
pub open spec fn gfw_base() -> Seq<char> {
    "https://gateway.api.globalfishingwatch.org"@
}

/// `https://gateway.api.globalfishingwatch.org{path}`.
pub fn gfw_url(path: &str) -> (u: String)
    ensures
        u@ == gfw_base() + path@,
{
    let mut out: Vec<char> = Vec::new();
    push_str(&mut out, "https://gateway.api.globalfishingwatch.org");
    push_str(&mut out, path);
    string_from_chars(&out)
}

/// Path of the query for a vessel's GFW gap events between two dates.
pub open spec fn gap_events_path_of(id: Seq<char>, start: Seq<char>, end: Seq<char>) -> Seq<char> {
    "/v3/events?types=GAP&vessels[0]="@ + id + "&startDate="@ + start + "&endDate="@ + end
        + "&datasets[0]=public-global-gaps-events:latest&limit=100"@
}

/// The path that queries GFW's gap events of vessel `gfw_vessel_id`.
pub fn gap_events_path(gfw_vessel_id: &str, start_date: &str, end_date: &str) -> (p: String)
    ensures
        p@ == gap_events_path_of(gfw_vessel_id@, start_date@, end_date@),
{
    let mut out: Vec<char> = Vec::new();
    push_str(&mut out, "/v3/events?types=GAP&vessels[0]=");
    push_str(&mut out, gfw_vessel_id);
    push_str(&mut out, "&startDate=");
    push_str(&mut out, start_date);
    push_str(&mut out, "&endDate=");
    push_str(&mut out, end_date);
    push_str(&mut out, "&datasets[0]=public-global-gaps-events:latest&limit=100");
    assert(out@ =~= gap_events_path_of(gfw_vessel_id@, start_date@, end_date@));
    string_from_chars(&out)
}

/// Path of the vessel-identity search for an MMSI.
pub open spec fn vessel_search_path_of(mmsi: u32) -> Seq<char> {
    "/v3/vessels/search?query="@ + dec_digits(mmsi as nat)
        + "&datasets[0]=public-global-vessel-identity:latest&includes[0]=OWNERSHIP&includes[1]=AUTHORIZATIONS"@
}

/// The path that searches GFW's vessel identities for `mmsi`.
pub fn vessel_search_path(mmsi: u32) -> (p: String)
    ensures
        p@ == vessel_search_path_of(mmsi),
{
    let mut out: Vec<char> = Vec::new();
    push_str(&mut out, "/v3/vessels/search?query=");
    push_decimal(&mut out, mmsi as u64);
    push_str(
        &mut out,
        "&datasets[0]=public-global-vessel-identity:latest&includes[0]=OWNERSHIP&includes[1]=AUTHORIZATIONS",
    );
    assert(out@ =~= vessel_search_path_of(mmsi));
    string_from_chars(&out)
}

/// Path of a satellite-detection query over the GeoJSON area `geometry`.
pub open spec fn detections_path_of(
    dataset: Seq<char>,
    start: Seq<char>,
    end: Seq<char>,
    geometry: Seq<u8>,
) -> Seq<char> {
    "/v3/vessel-detections?datasets[0]="@ + dataset + "&startDate="@ + start + "&endDate="@ + end
        + "&geometry="@ + percent_encode(geometry) + "&limit=200"@
}

/// The path that queries satellite detections of `dataset` within the
/// GeoJSON polygon `geometry` (sent URL-encoded).
pub fn detections_path(dataset: &str, start_date: &str, end_date: &str, geometry: &str) -> (p:
    String)
    ensures
        p@ == detections_path_of(dataset@, start_date@, end_date@, geometry.spec_bytes()),
{
    let encoded = url_encode(geometry);
    let mut out: Vec<char> = Vec::new();
    push_str(&mut out, "/v3/vessel-detections?datasets[0]=");
    push_str(&mut out, dataset);
    push_str(&mut out, "&startDate=");
    push_str(&mut out, start_date);
    push_str(&mut out, "&endDate=");
    push_str(&mut out, end_date);
    push_str(&mut out, "&geometry=");
    push_str(&mut out, encoded.as_str());
    push_str(&mut out, "&limit=200");
    assert(out@ =~= detections_path_of(dataset@, start_date@, end_date@, geometry.spec_bytes()));
    string_from_chars(&out)
}

/// Whether a GFW response with this HTTP status carries a body to read
/// (only 200 does; denied, missing and other answers count as no data).
pub fn response_has_body(status: u16) -> (b: bool)
    ensures
        b == (status == 200),
{
    status == 200
}

/// The first search result whose `ssvid` is the decimal MMSI, if any.
pub fn first_matching_ssvid(ssvids: &Vec<String>, mmsi: u32) -> (r: Option<usize>)
    ensures
        r matches Some(i) ==> i < ssvids@.len() && ssvids@[i as int]@ == dec_digits(mmsi as nat)
            && forall|j: int| 0 <= j < i ==> #[trigger] ssvids@[j]@ != dec_digits(mmsi as nat),
        r is None ==> forall|j: int| 0 <= j < ssvids@.len() ==> #[trigger] ssvids@[j]@ != dec_digits(
            mmsi as nat,
        ),
{
    let mut want: Vec<char> = Vec::new();
    push_decimal(&mut want, mmsi as u64);
    assert(want@ =~= dec_digits(mmsi as nat));
    let mut i: usize = 0;
    while i < ssvids.len()
        invariant
            i <= ssvids@.len(),
            want@ == dec_digits(mmsi as nat),
            forall|j: int| 0 <= j < i ==> #[trigger] ssvids@[j]@ != dec_digits(mmsi as nat),
        decreases ssvids@.len() - i,
    {
        let cs = str_chars(ssvids[i].as_str());
        if chars_eq(&cs, &want) {
            return Some(i);
        }
        i = i + 1;
    }
    None
}

/// Number of `false` entries (detections no AIS transmission matched).
pub open spec fn count_false(s: Seq<bool>) -> nat
    decreases s.len(),
{
    if s.len() == 0 {
        0
    } else {
        count_false(s.drop_last()) + if s.last() {
            0nat
        } else {
            1nat
        }
    }
}

/// Counts the detections that no AIS transmission matched: vessels present
/// but dark.
pub fn count_unmatched(ais_matched: &Vec<bool>) -> (n: usize)
    ensures
        n == count_false(ais_matched@),
{
    let mut n: usize = 0;
    let mut i: usize = 0;
    while i < ais_matched.len()
        invariant
            i <= ais_matched@.len(),
            n == count_false(ais_matched@.take(i as int)),
            n <= i,
        decreases ais_matched@.len() - i,
    {
        assert(ais_matched@.take(i + 1).drop_last() =~= ais_matched@.take(i as int));
        if !ais_matched[i] {
            n = n + 1;
        }
        i = i + 1;
    }
    assert(ais_matched@.take(i as int) =~= ais_matched@);
    n
}

/// How strongly the evidence says a vessel is dark.
#[derive(Debug, Clone, Copy, PartialEq, Eq)]
pub enum DarkConfidence {
    NoEvent,
    Low,
    Medium,
    High,
}

/// The confidence for a vessel: none without a local dark event; with one,
/// high when an unmatched SAR detection lies near its last position, else
/// medium when GFW reports gap events, else low.
pub open spec fn dark_confidence_of(has_local_event: bool, gfw_gaps_empty: bool, unmatched_sar: nat) -> DarkConfidence {
    if !has_local_event {
        DarkConfidence::NoEvent
    } else if unmatched_sar > 0 {
        DarkConfidence::High
    } else if gfw_gaps_empty {
        DarkConfidence::Low
    } else {
        DarkConfidence::Medium
    }
}

/// Weighs the evidence into a dark-activity confidence.
pub fn dark_confidence(has_local_event: bool, gfw_gaps_empty: bool, unmatched_sar: usize) -> (c:
    DarkConfidence)
    ensures
        c == dark_confidence_of(has_local_event, gfw_gaps_empty, unmatched_sar as nat),
{
    if !has_local_event {
        DarkConfidence::NoEvent
    } else if unmatched_sar == 0 && gfw_gaps_empty {
        DarkConfidence::Low
    } else if unmatched_sar == 0 {
        DarkConfidence::Medium
    } else {
        DarkConfidence::High
    }
}

impl DarkConfidence {
    /// The label the API reports.
    pub fn as_str(&self) -> (s: &'static str)
        ensures
            s@ == (match self {
                DarkConfidence::NoEvent => "none"@,
                DarkConfidence::Low => "low"@,
                DarkConfidence::Medium => "medium"@,
                DarkConfidence::High => "high"@,
            }),
    {
        match self {
            DarkConfidence::NoEvent => "none",
            DarkConfidence::Low => "low",
            DarkConfidence::Medium => "medium",
            DarkConfidence::High => "high",
        }
    }
}

/// The count of unmatched detections, told apart from the counting: an
/// empty list has none, a matched detection adds none, an unmatched one adds
/// one; so it is the number of `false` entries, at most the list's length.
pub proof fn law_count_false(s: Seq<bool>)
    ensures
        count_false(Seq::<bool>::empty()) == 0,
        count_false(s.push(false)) == count_false(s) + 1,
        count_false(s.push(true)) == count_false(s),
        count_false(s) == s.filter(|b: bool| !b).len(),
        count_false(s) <= s.len(),
        (forall|i: int| 0 <= i < s.len() ==> s[i]) ==> count_false(s) == 0,
        (forall|i: int| 0 <= i < s.len() ==> !s[i]) ==> count_false(s) == s.len(),
    decreases s.len(),
{
    assert(s.push(false).drop_last() =~= s);
    assert(s.push(true).drop_last() =~= s);
    reveal(Seq::filter);
    if s.len() > 0 {
        let init = s.drop_last();
        law_count_false(init);
        assert forall|i: int| 0 <= i < init.len() implies init[i] == s[i] by {}
    }
}

/// The confidence table: no local dark event gives none; with one, any
/// unmatched SAR detection gives high; otherwise GFW gap events give
/// medium and their absence low.
pub proof fn law_dark_confidence_table(has_local_event: bool, gfw_gaps_empty: bool, unmatched_sar: nat)
    ensures
        !has_local_event ==> dark_confidence_of(has_local_event, gfw_gaps_empty, unmatched_sar)
            == DarkConfidence::NoEvent,
        has_local_event && unmatched_sar > 0 ==> dark_confidence_of(
            has_local_event,
            gfw_gaps_empty,
            unmatched_sar,
        ) == DarkConfidence::High,
        has_local_event && unmatched_sar == 0 && !gfw_gaps_empty ==> dark_confidence_of(
            has_local_event,
            gfw_gaps_empty,
            unmatched_sar,
        ) == DarkConfidence::Medium,
        has_local_event && unmatched_sar == 0 && gfw_gaps_empty ==> dark_confidence_of(
            has_local_event,
            gfw_gaps_empty,
            unmatched_sar,
        ) == DarkConfidence::Low,
{
}

} // verus!
