//! Device discovery: selecting the control board among the serial endpoints
//! the system advertises.
//!
//! Enumeration itself is the process wiring's business; it hands the
//! candidates over as plain descriptors. With an explicit device name the
//! one endpoint with exactly that name is chosen; with none, the first USB
//! endpoint whose advertised product string contains the control board's
//! marker. The wiring keeps rescanning at a fixed interval until a
//! candidate is found, then opens it at the fixed baud rate.

use vstd::prelude::*;

verus! {

/// The fixed baud rate at which a matched endpoint is opened.
pub const BAUD_RATE: u32 = 9600;

/// The fixed I/O timeout, in seconds, set on the opened connection.
pub const IO_TIMEOUT_SECS: u64 = 1;

/// How long, in seconds, to sleep between two discovery scans.
pub const RETRY_INTERVAL_SECS: u64 = 1;

/// The connection type of a discovered serial endpoint, with the metadata
/// the selection reads.
#[derive(Clone, Debug)]
pub enum PortKind {
    /// A USB endpoint, with its advertised product string when one is
    /// declared.
    Usb { product: Option<String> },
    /// Any other connection type.
    Other,
}

/// A discovered candidate serial endpoint.
#[derive(Clone, Debug)]
pub struct PortCandidate {
    /// The endpoint's path or name.
    pub name: String,
    /// Its connection type and metadata.
    pub kind: PortKind,
}

/// The product-string marker identifying the target control board.
pub open spec fn spec_marker() -> Seq<char> {
    "EiBotBoard"@
}

/// Whether `pattern` occurs as a contiguous run of characters in `text`.
pub open spec fn spec_contains(text: Seq<char>, pattern: Seq<char>) -> bool {
    exists|i: int|
        0 <= i && i + pattern.len() <= text.len() && #[trigger] text.subrange(
            i,
            i + pattern.len(),
        ) == pattern
}

/// Relies on str::contains: true exactly when the pattern occurs as a
/// substring of the text.
#[verifier::external_body]
fn str_contains(text: &str, pattern: &str) -> (r: bool)
    ensures
        r == spec_contains(text@, pattern@),
{
    text.contains(pattern)
}

/// Whether discovery selects this candidate.
///
/// With an explicit name, only the exact endpoint name counts; with none,
/// only a USB endpoint whose declared product string contains the marker.
pub open spec fn is_target(candidate: PortCandidate, explicit: Option<String>) -> bool {
    match explicit {
        Some(name) => candidate.name@ == name@,
        None => match candidate.kind {
            PortKind::Usb { product } => match product {
                Some(p) => spec_contains(p@, spec_marker()),
                None => false,
            },
            PortKind::Other => false,
        },
    }
}

/// Decide whether one candidate is the target device.
pub fn matches_target(candidate: &PortCandidate, explicit: &Option<String>) -> (r: bool)
    ensures
        r == is_target(*candidate, *explicit),
{
    match explicit {
        Some(name) => candidate.name == *name,
        None => match &candidate.kind {
            PortKind::Usb { product } => match product {
                Some(p) => str_contains(p.as_str(), "EiBotBoard"),
                None => false,
            },
            PortKind::Other => false,
        },
    }
}

/// Select the first candidate of one scan that is the target, if any.
///
/// `None` is not an error: the wiring sleeps for the retry interval and
/// scans again.
pub fn find_port(candidates: &Vec<PortCandidate>, explicit: &Option<String>) -> (found: Option<
    usize,
>)
    ensures
        found matches Some(i) ==> {
            &&& i < candidates@.len()
            &&& is_target(candidates@[i as int], *explicit)
            &&& forall|j: int| 0 <= j < i ==> !is_target(#[trigger] candidates@[j], *explicit)
        },
        found is None ==> forall|j: int|
            0 <= j < candidates@.len() ==> !is_target(#[trigger] candidates@[j], *explicit),
{
    let n = candidates.len();
    let mut i: usize = 0;
    while i < n
        invariant
            n == candidates@.len(),
            i <= n,
            forall|j: int| 0 <= j < i ==> !is_target(#[trigger] candidates@[j], *explicit),
        decreases n - i,
    {
        if matches_target(&candidates[i], explicit) {
            return Some(i);
        }
        i += 1;
    }
    None
}

/// Law: with an explicit device name, selection reads nothing but the
/// endpoint name — two candidates with the same name fare the same,
/// whatever their connection type or product string.
pub proof fn lemma_explicit_name_ignores_usb(
    c: PortCandidate,
    d: PortCandidate,
    name: String,
)
    requires
        c.name@ == d.name@,
    ensures
        is_target(c, Some(name)) == is_target(d, Some(name)),
        is_target(c, Some(name)) <==> c.name@ == name@,
{
}

/// Law: with no explicit name, selection takes exactly the USB endpoints
/// whose declared product string contains the marker; every other
/// candidate is passed over, whatever its name.
pub proof fn lemma_heuristic_needs_usb_marker(c: PortCandidate)
    ensures
        is_target(c, None) <==> (c.kind matches PortKind::Usb { product } && product matches Some(
            p,
        ) && spec_contains(p@, spec_marker())),
{
}

} // verus!
