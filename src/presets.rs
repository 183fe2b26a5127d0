//! Fixed choices: the preferred output device, the preset messages and
//! voices of alerts, and the voice that suits an emotion.

use vstd::prelude::*;
use crate::text::{chars_of, string_views};

verus! {

/// What `str::to_lowercase` returns for a text.
pub uninterp spec fn lower_of(s: Seq<char>) -> Seq<char>;

/// Relies on `str::to_lowercase`: the Unicode lower-case mapping, which
/// depends on the characters alone.
#[verifier::external_body]
pub(crate) fn lowercase(s: &str) -> (r: String)
    ensures
        r@ == lower_of(s@),
{
    s.to_lowercase()
}

/// `needle` occurs in `hay` at position `i`.
pub open spec fn occurs_at(hay: Seq<char>, needle: Seq<char>, i: int) -> bool {
    0 <= i && i + needle.len() <= hay.len() && hay.subrange(i, i + needle.len()) == needle
}

/// `needle` occurs somewhere in `hay`.
pub open spec fn contains_text(hay: Seq<char>, needle: Seq<char>) -> bool {
    exists|i: int| #[trigger] occurs_at(hay, needle, i)
}

fn occurs_at_exec(hay: &Vec<char>, needle: &Vec<char>, i: usize) -> (r: bool)
    requires
        i + needle@.len() <= hay@.len(),
    ensures
        r == occurs_at(hay@, needle@, i as int),
{
    let hl = hay.len();
    let mut k: usize = 0;
    while k < needle.len()
        invariant
            k <= needle.len(),
            hl == hay@.len(),
            i + needle@.len() <= hay@.len(),
            forall|j: int| 0 <= j < k ==> hay@[i + j] == needle@[j],
        decreases needle.len() - k,
    {
        if hay[i + k] != needle[k] {
            assert(hay@.subrange(i as int, i + needle@.len())[k as int] != needle@[k as int]);
            return false;
        }
        k = k + 1;
    }
    assert(hay@.subrange(i as int, i + needle@.len()) =~= needle@);
    true
}

/// Whether `needle` occurs in `hay`.
pub fn text_contains(hay: &str, needle: &str) -> (r: bool)
    ensures
        r == contains_text(hay@, needle@),
{
    let h = chars_of(hay);
    let n = chars_of(needle);
    if n.len() > h.len() {
        return false;
    }
    let last = h.len() - n.len();
    let mut i: usize = 0;
    loop
        invariant
            last == h@.len() - n@.len(),
            n@.len() <= h@.len(),
            h@ == hay@,
            n@ == needle@,
            i <= last,
            forall|j: int| 0 <= j < i ==> !occurs_at(h@, n@, j),
        decreases last - i,
    {
        if occurs_at_exec(&h, &n, i) {
            assert(occurs_at(hay@, needle@, i as int));
            return true;
        }
        if i == last {
            assert forall|j: int| !occurs_at(hay@, needle@, j) by {
                if 0 <= j <= last {
                    assert(j < i || j == i);
                }
            }
            return false;
        }
        i = i + 1;
    }
}

/// Name fragments of devices that suit speech, most preferred first.
pub open spec fn device_keyword(k: int) -> Seq<char> {
    if k == 0 {
        "Voice"@
    } else if k == 1 {
        "Built-in"@
    } else if k == 2 {
        "iPhone"@
    } else if k == 3 {
        "AirPods"@
    } else if k == 4 {
        "Headphones"@
    } else if k == 5 {
        "Headset"@
    } else {
        "Phone"@
    }
}

pub const DEVICE_KEYWORD_COUNT: usize = 7;

fn device_keyword_exec(k: usize) -> (r: &'static str)
    ensures
        r@ == device_keyword(k as int),
{
    if k == 0 {
        "Voice"
    } else if k == 1 {
        "Built-in"
    } else if k == 2 {
        "iPhone"
    } else if k == 3 {
        "AirPods"
    } else if k == 4 {
        "Headphones"
    } else if k == 5 {
        "Headset"
    } else {
        "Phone"
    }
}

/// The first device, from position `from` on, whose name holds `kw`.
pub open spec fn first_with(devs: Seq<Seq<char>>, kw: Seq<char>, from: int) -> Option<int>
    decreases devs.len() - from,
{
    if from < 0 || from >= devs.len() {
        None
    } else if contains_text(devs[from], kw) {
        Some(from)
    } else {
        first_with(devs, kw, from + 1)
    }
}

/// The first device that holds a keyword, trying the keywords in order of
/// preference from `k` on.
pub open spec fn first_keyword_hit(devs: Seq<Seq<char>>, k: int) -> Option<int>
    decreases DEVICE_KEYWORD_COUNT - k,
{
    if k < 0 || k >= DEVICE_KEYWORD_COUNT {
        None
    } else {
        match first_with(devs, device_keyword(k), 0) {
            Some(i) => Some(i),
            None => first_keyword_hit(devs, k + 1),
        }
    }
}

/// The first device, from `from` on, whose lower-cased name does not hold
/// `unknown`.
pub open spec fn first_known(lowered: Seq<Seq<char>>, from: int) -> Option<int>
    decreases lowered.len() - from,
{
    if from < 0 || from >= lowered.len() {
        None
    } else if !contains_text(lowered[from], "unknown"@) {
        Some(from)
    } else {
        first_known(lowered, from + 1)
    }
}

/// The preferred device among `devs`, given their lower-cased names.
pub open spec fn choose_device_spec(devs: Seq<Seq<char>>, lowered: Seq<Seq<char>>) -> Option<
    Seq<char>,
> {
    match first_keyword_hit(devs, 0) {
        Some(i) => Some(devs[i]),
        None => match first_known(lowered, 0) {
            Some(i) => Some(devs[i]),
            None => None,
        },
    }
}

/// The preferred output device, given the names and their lower-cased
/// forms: the first device whose name holds the most preferred keyword that
/// any name holds, else the first whose lower-cased name does not hold
/// `unknown`.
pub fn choose_device(devices: &Vec<String>, lowered: &Vec<String>) -> (r: Option<String>)
    requires
        lowered@.len() == devices@.len(),
    ensures
        match choose_device_spec(string_views(devices@), string_views(lowered@)) {
            Some(d) => r matches Some(s) && s@ == d,
            None => r is None,
        },
{
    let ghost dv = string_views(devices@);
    let ghost lv = string_views(lowered@);
    let mut k: usize = 0;
    while k < DEVICE_KEYWORD_COUNT
        invariant
            k <= DEVICE_KEYWORD_COUNT,
            dv == string_views(devices@),
            first_keyword_hit(dv, 0) == first_keyword_hit(dv, k as int),
        decreases DEVICE_KEYWORD_COUNT - k,
    {
        let kw = device_keyword_exec(k);
        let mut i: usize = 0;
        while i < devices.len()
            invariant
                i <= devices.len(),
                k < DEVICE_KEYWORD_COUNT,
                kw@ == device_keyword(k as int),
                dv == string_views(devices@),
                first_keyword_hit(dv, 0) == first_keyword_hit(dv, k as int),
                first_with(dv, kw@, 0) == first_with(dv, kw@, i as int),
            decreases devices.len() - i,
        {
            if text_contains(devices[i].as_str(), kw) {
                assert(dv[i as int] == devices@[i as int]@);
                assert(first_with(dv, kw@, i as int) == Some(i as int));
                assert(first_with(dv, device_keyword(k as int), 0) == Some(i as int));
                assert(first_keyword_hit(dv, k as int) == Some(i as int));
                return Some(devices[i].clone());
            }
            i = i + 1;
        }
        k = k + 1;
    }
    let mut i: usize = 0;
    while i < lowered.len()
        invariant
            i <= lowered.len(),
            lowered@.len() == devices@.len(),
            dv == string_views(devices@),
            lv == string_views(lowered@),
            first_keyword_hit(dv, 0) is None,
            first_known(lv, 0) == first_known(lv, i as int),
        decreases lowered.len() - i,
    {
        if !text_contains(lowered[i].as_str(), "unknown") {
            assert(lv[i as int] == lowered@[i as int]@);
            assert(first_known(lv, i as int) == Some(i as int));
            assert(dv[i as int] == devices@[i as int]@);
            return Some(devices[i].clone());
        }
        i = i + 1;
    }
    None
}

/// Every name lower-cased.
pub open spec fn lowered_all(devs: Seq<Seq<char>>) -> Seq<Seq<char>> {
    Seq::new(devs.len(), |i: int| lower_of(devs[i]))
}

/// The preferred output device among `devices` (see `choose_device`), with
/// names lower-cased by `str::to_lowercase`.
pub fn pick_preferred_device(devices: &Vec<String>) -> (r: Option<String>)
    ensures
        match choose_device_spec(string_views(devices@), lowered_all(string_views(devices@))) {
            Some(d) => r matches Some(s) && s@ == d,
            None => r is None,
        },
{
    let mut lowered: Vec<String> = Vec::new();
    let mut i: usize = 0;
    while i < devices.len()
        invariant
            i <= devices.len(),
            lowered@.len() == i,
            forall|j: int| 0 <= j < i ==> #[trigger] lowered@[j]@ == lower_of(devices@[j]@),
        decreases devices.len() - i,
    {
        lowered.push(lowercase(devices[i].as_str()));
        i = i + 1;
    }
    assert(string_views(lowered@) =~= lowered_all(string_views(devices@)));
    choose_device(devices, &lowered)
}

/// The voice that suits an emotion word, given in lower case.
pub open spec fn emotion_voice_spec(e: Seq<char>) -> Seq<char> {
    if e == "happy"@ || e == "cheerful"@ || e == "excited"@ || e == "success"@ {
        "af_bella"@
    } else if e == "alert"@ || e == "warning"@ || e == "error"@ || e == "serious"@ {
        "am_adam"@
    } else if e == "technical"@ || e == "precise"@ || e == "analytical"@ {
        "af_nicole"@
    } else if e == "professional"@ || e == "formal"@ || e == "teaching"@ {
        "am_michael"@
    } else if e == "warm"@ || e == "caring"@ || e == "encouraging"@ {
        "af_heart"@
    } else if e == "confident"@ || e == "announcement"@ {
        "am_echo"@
    } else if e == "british"@ || e == "polite"@ {
        "bf_emma"@
    } else {
        "af_sky"@
    }
}

/// Whether two texts are equal, character by character.
pub fn same_text(a: &str, b: &str) -> (r: bool)
    ensures
        r == (a@ == b@),
{
    let x = chars_of(a);
    let y = chars_of(b);
    if x.len() != y.len() {
        assert(a@.len() != b@.len());
        return false;
    }
    let mut i: usize = 0;
    while i < x.len()
        invariant
            i <= x.len(),
            x@ == a@,
            y@ == b@,
            x@.len() == y@.len(),
            forall|j: int| 0 <= j < i ==> x@[j] == y@[j],
        decreases x.len() - i,
    {
        if x[i] != y[i] {
            assert(x@[i as int] != y@[i as int]);
            return false;
        }
        i = i + 1;
    }
    assert(x@ =~= y@);
    true
}

/// The voice for an emotion word already in lower case; unknown words get
/// the default friendly voice.
pub fn voice_for_emotion(e: &str) -> (r: &'static str)
    ensures
        r@ == emotion_voice_spec(e@),
{
    if same_text(e, "happy") || same_text(e, "cheerful") || same_text(e, "excited") || same_text(
        e,
        "success",
    ) {
        "af_bella"
    } else if same_text(e, "alert") || same_text(e, "warning") || same_text(e, "error")
        || same_text(e, "serious") {
        "am_adam"
    } else if same_text(e, "technical") || same_text(e, "precise") || same_text(e, "analytical") {
        "af_nicole"
    } else if same_text(e, "professional") || same_text(e, "formal") || same_text(e, "teaching") {
        "am_michael"
    } else if same_text(e, "warm") || same_text(e, "caring") || same_text(e, "encouraging") {
        "af_heart"
    } else if same_text(e, "confident") || same_text(e, "announcement") {
        "am_echo"
    } else if same_text(e, "british") || same_text(e, "polite") {
        "bf_emma"
    } else {
        "af_sky"
    }
}

/// The voice for an emotion word, in any case.
pub fn emotion_to_voice(emotion: &str) -> (r: &'static str)
    ensures
        r@ == emotion_voice_spec(lower_of(emotion@)),
{
    let lowered = lowercase(emotion);
    voice_for_emotion(lowered.as_str())
}

/// Kinds of system alert, each with a preset message and voice.
#[derive(Debug, Clone, Copy, PartialEq, Eq, Structural)]
pub enum AlertType {
    Success,
    Error,
    Warning,
    Info,
    Build,
    Test,
    Deploy,
    Custom,
}

pub open spec fn alert_message_spec(a: AlertType) -> Seq<char> {
    match a {
        AlertType::Success => "Operation completed successfully!"@,
        AlertType::Error => "Error detected. Please check the logs."@,
        AlertType::Warning => "Warning: Attention required."@,
        AlertType::Info => "Information update available."@,
        AlertType::Build => "Build process complete."@,
        AlertType::Test => "Test suite finished running."@,
        AlertType::Deploy => "Deployment status update."@,
        AlertType::Custom => "Alert triggered."@,
    }
}

pub open spec fn alert_voice_spec(a: AlertType) -> Seq<char> {
    match a {
        AlertType::Success => "af_bella"@,
        AlertType::Error => "am_adam"@,
        AlertType::Warning => "bf_emma"@,
        AlertType::Info => "af_sky"@,
        AlertType::Build => "am_michael"@,
        AlertType::Test => "af_nicole"@,
        AlertType::Deploy => "am_echo"@,
        AlertType::Custom => "af_heart"@,
    }
}

impl AlertType {
    /// The message spoken when the alert carries none of its own.
    pub fn default_message(&self) -> (r: &'static str)
        ensures
            r@ == alert_message_spec(*self),
    {
        match self {
            AlertType::Success => "Operation completed successfully!",
            AlertType::Error => "Error detected. Please check the logs.",
            AlertType::Warning => "Warning: Attention required.",
            AlertType::Info => "Information update available.",
            AlertType::Build => "Build process complete.",
            AlertType::Test => "Test suite finished running.",
            AlertType::Deploy => "Deployment status update.",
            AlertType::Custom => "Alert triggered.",
        }
    }

    /// The voice the alert is spoken in.
    pub fn voice(&self) -> (r: &'static str)
        ensures
            r@ == alert_voice_spec(*self),
    {
        match self {
            AlertType::Success => "af_bella",
            AlertType::Error => "am_adam",
            AlertType::Warning => "bf_emma",
            AlertType::Info => "af_sky",
            AlertType::Build => "am_michael",
            AlertType::Test => "af_nicole",
            AlertType::Deploy => "am_echo",
            AlertType::Custom => "af_heart",
        }
    }
}

} // verus!
