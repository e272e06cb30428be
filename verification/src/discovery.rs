//! The discovery loop's decision core: a state machine from capture events
//! to the next loop state and the sightings to report. The blocking capture
//! read itself happens outside; this module decides, for every outcome the
//! capture hands back, what the loop does with it.

use vstd::prelude::*;

use crate::frame::parse_frame;
use crate::registry::{
    after_observe, seen_addr, sighting_model, DeviceRegistry, DeviceSighting, SightingSeq,
};
use crate::vendor::{resolve_label, VendorDirectory};

verus! {

use vstd::string::StringExecFns;

broadcast use vstd::string::group_string_axioms;

/// The discovery loop's state: no session yet, consuming frames, or done.
/// `Stopped` is terminal; the loop never restarts itself.
#[derive(Clone, Copy, Debug, PartialEq, Eq, Structural)]
pub enum LoopState {
    Idle,
    Capturing,
    Stopped,
}

/// Why opening a capture session failed.
#[derive(Clone, Copy, Debug, PartialEq, Eq, Structural)]
pub enum OpenErrorReason {
    /// Access was denied; capturing commonly needs elevated privilege.
    PermissionDenied,
    /// The interface is not up.
    InterfaceDown,
    /// The interface has no capture support.
    NotCapturable,
}

/// A capture session could not be bound to an interface. Fatal: the loop
/// surfaces it and never starts capturing.
#[derive(Debug)]
pub struct CaptureOpenError {
    pub interface: String,
    pub reason: OpenErrorReason,
}

/// One outcome of waiting on the capture session, as the loop sees it.
#[derive(Debug)]
pub enum CaptureEvent {
    /// A raw frame arrived.
    FrameArrived(Vec<u8>),
    /// A per-read error worth skipping; capture is retried on the next read.
    TransientError,
    /// An unrecoverable capture error; capture stops.
    FatalError,
    /// An external stop signal, checked between frame reads.
    CancelRequested,
}

pub open spec fn reason_text(r: OpenErrorReason) -> Seq<char> {
    match r {
        OpenErrorReason::PermissionDenied => seq![
            'p', 'e', 'r', 'm', 'i', 's', 's', 'i', 'o', 'n', ' ', 'd', 'e', 'n', 'i', 'e', 'd',
        ],
        OpenErrorReason::InterfaceDown => seq![
            'i', 'n', 't', 'e', 'r', 'f', 'a', 'c', 'e', ' ', 'n', 'o', 't', ' ', 'u', 'p',
        ],
        OpenErrorReason::NotCapturable => seq![
            'n', 'o', 't', ' ', 'c', 'a', 'p', 't', 'u', 'r', 'a', 'b', 'l', 'e',
        ],
    }
}

/// The message a failed open surfaces: it names the interface and the reason.
pub open spec fn open_error_text(interface: Seq<char>, r: OpenErrorReason) -> Seq<char> {
    seq![
        'c', 'a', 'n', 'n', 'o', 't', ' ', 'o', 'p', 'e', 'n', ' ', 'c', 'a', 'p', 't', 'u', 'r',
        'e', ' ', 'o', 'n', ' ',
    ] + interface + seq![':', ' '] + reason_text(r)
}

impl CaptureOpenError {
    /// The user-visible description: operation, interface name, reason.
    pub fn message(&self) -> (r: String)
        ensures
            r@ == open_error_text(self.interface@, self.reason),
    {
        let mut out = String::new();
        out.append("cannot open capture on ");
        out.append(self.interface.as_str());
        out.append(": ");
        let reason: &'static str = match self.reason {
            OpenErrorReason::PermissionDenied => "permission denied",
            OpenErrorReason::InterfaceDown => "interface not up",
            OpenErrorReason::NotCapturable => "not capturable",
        };
        out.append(reason);
        proof {
            reveal_strlit("cannot open capture on ");
            reveal_strlit(": ");
            reveal_strlit("permission denied");
            reveal_strlit("interface not up");
            reveal_strlit("not capturable");
            assert(reason@ =~= reason_text(self.reason));
            assert(out@ =~= open_error_text(self.interface@, self.reason));
        }
        out
    }
}

/// Leaves `Idle` according to the session-open outcome: `Capturing` exactly
/// when the session opened, `Stopped` on any open failure — a failed open
/// never starts capturing.
pub fn on_open_outcome(st: LoopState, outcome: &Result<(), CaptureOpenError>) -> (r: LoopState)
    requires
        st is Idle,
    ensures
        r is Capturing <==> outcome is Ok,
        r is Stopped <==> outcome is Err,
{
    match outcome {
        Ok(_) => LoopState::Capturing,
        Err(_) => LoopState::Stopped,
    }
}

/// What one frame contributes to the report: the fresh sightings, source
/// first, then destination, each only when not sighted before.
pub open spec fn frame_report(
    v0: SightingSeq,
    src: Seq<u8>,
    ls: Seq<char>,
    dst: Seq<u8>,
    ld: Seq<char>,
) -> SightingSeq {
    (if seen_addr(v0, src) {
        Seq::<(Seq<u8>, Seq<char>)>::empty()
    } else {
        seq![(src, ls)]
    }) + (if seen_addr(after_observe(v0, src, ls), dst) {
        Seq::<(Seq<u8>, Seq<char>)>::empty()
    } else {
        seq![(dst, ld)]
    })
}

/// One turn of the discovery loop while `Capturing`: decides the next state
/// and records and reports sightings. Parse failures and transient capture
/// errors are absorbed; fatal errors and cancellation stop the loop; a
/// well-formed frame is observed source first, then destination, and each
/// newly seen address is reported exactly once, in that order.
pub fn step(st: LoopState, reg: &mut DeviceRegistry, dir: &VendorDirectory, ev: &CaptureEvent) -> (r:
    (LoopState, Vec<DeviceSighting>))
    requires
        st is Capturing,
        old(reg).inv(),
    ensures
        final(reg).inv(),
        (ev is CancelRequested || ev is FatalError) ==> r.0 is Stopped && final(reg)@ == old(reg)@
            && r.1@.len() == 0,
        ev is TransientError ==> r.0 is Capturing && final(reg)@ == old(reg)@ && r.1@.len() == 0,
        ev matches CaptureEvent::FrameArrived(bytes) ==> {
            &&& r.0 is Capturing
            &&& bytes@.len() < 14 ==> final(reg)@ == old(reg)@ && r.1@.len() == 0
            &&& bytes@.len() >= 14 ==> {
                let dst = bytes@.subrange(0, 6);
                let src = bytes@.subrange(6, 12);
                let ls = resolve_label(dir@, src);
                let ld = resolve_label(dir@, dst);
                &&& final(reg)@ == after_observe(after_observe(old(reg)@, src, ls), dst, ld)
                &&& r.1@.map_values(|s: DeviceSighting| sighting_model(s)) == frame_report(
                    old(reg)@,
                    src,
                    ls,
                    dst,
                    ld,
                )
            }
        },
{
    let ghost v0 = reg@;
    match ev {
        CaptureEvent::CancelRequested => (LoopState::Stopped, Vec::new()),
        CaptureEvent::FatalError => (LoopState::Stopped, Vec::new()),
        CaptureEvent::TransientError => (LoopState::Capturing, Vec::new()),
        CaptureEvent::FrameArrived(bytes) => {
            let mut report: Vec<DeviceSighting> = Vec::new();
            match parse_frame(bytes.as_slice()) {
                Err(_) => (LoopState::Capturing, report),
                Ok(f) => {
                    let ghost src = bytes@.subrange(6, 12);
                    let ghost dst = bytes@.subrange(0, 6);
                    let ghost ls = resolve_label(dir@, src);
                    let ghost ld = resolve_label(dir@, dst);
                    if let Some(s) = reg.observe(&f.source, dir) {
                        report.push(s);
                    }
                    if let Some(s) = reg.observe(&f.destination, dir) {
                        report.push(s);
                    }
                    proof {
                        assert(report@.map_values(|s: DeviceSighting| sighting_model(s))
                            =~= frame_report(v0, src, ls, dst, ld));
                    }
                    (LoopState::Capturing, report)
                },
            }
        },
    }
}

} // verus!
