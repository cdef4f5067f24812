//! Signals: which ones are passed on to the command, and to whom they go.

use vstd::prelude::*;

verus! {

/// The signals that the wrapper handles or sends.
#[derive(Clone, Copy, Debug, PartialEq, Eq, Structural)]
pub enum Signal {
    Interrupt,
    Terminate,
    Hangup,
    Quit,
    Kill,
}

/// A signal to send. A negative target stands for the process group that has
/// the number without the sign.
#[derive(Clone, Copy, Debug, PartialEq, Eq, Structural)]
pub struct Delivery {
    pub target: i32,
    pub signal: Signal,
}

/// A signal for process group `pgid`. A number that is not positive stands
/// for no group at all.
pub open spec fn to_group(pgid: i32, signal: Signal) -> Option<Delivery> {
    if pgid > 0 {
        Some(Delivery { target: (-pgid) as i32, signal })
    } else {
        None
    }
}

/// What to send when the wrapper itself gets a signal, where `pgid` is the
/// process group of the running command, or 0.
pub fn forward_signal(pgid: i32, signal: Signal) -> (delivery: Option<Delivery>)
    ensures
        delivery == to_group(pgid, signal),
        delivery is Some <==> pgid > 0,
        delivery matches Some(d) ==> d.target < 0 && d.target + pgid == 0 && d.signal == signal,
{
    if pgid > 0 {
        Some(Delivery { target: -pgid, signal })
    } else {
        None
    }
}

/// What to send once the command has exited, so that nothing it has started
/// is left over.
pub fn kill_process_group(pgid: i32) -> (delivery: Option<Delivery>)
    ensures
        delivery == to_group(pgid, Signal::Kill),
        delivery is Some <==> pgid > 0,
        delivery matches Some(d) ==> d.target < 0 && d.target + pgid == 0 && d.signal
            == Signal::Kill,
{
    if pgid > 0 {
        Some(Delivery { target: -pgid, signal: Signal::Kill })
    } else {
        None
    }
}

/// The signals for which a handler is installed that passes them on.
pub fn install_signal_forwarders() -> (signals: Vec<Signal>)
    ensures
        signals@ == seq![Signal::Interrupt, Signal::Terminate, Signal::Hangup, Signal::Quit],
        forall|signal: Signal| #[trigger] signals@.contains(signal) <==> signal != Signal::Kill,
        signals@.no_duplicates(),
{
    let signals = vec![Signal::Interrupt, Signal::Terminate, Signal::Hangup, Signal::Quit];
    assert(signals@[0] == Signal::Interrupt && signals@[1] == Signal::Terminate && signals@[2]
        == Signal::Hangup && signals@[3] == Signal::Quit);
    signals
}

/// Every signal that has a handler, and the one that ends what is left over,
/// reaches the whole process group of a running command, unchanged: the target
/// is the group's number with a minus sign.
pub proof fn law_signals_reach_the_group(pgid: i32, signal: Signal)
    requires
        pgid > 0,
    ensures
        to_group(pgid, signal) matches Some(d) && d.target == -pgid && d.signal == signal,
        to_group(pgid, Signal::Interrupt) matches Some(d) && d.target == -pgid && d.signal
            == Signal::Interrupt,
        to_group(pgid, Signal::Terminate) matches Some(d) && d.target == -pgid && d.signal
            == Signal::Terminate,
        to_group(pgid, Signal::Hangup) matches Some(d) && d.target == -pgid && d.signal
            == Signal::Hangup,
        to_group(pgid, Signal::Quit) matches Some(d) && d.target == -pgid && d.signal
            == Signal::Quit,
        to_group(pgid, Signal::Kill) matches Some(d) && d.target == -pgid && d.signal
            == Signal::Kill,
{
}

/// Without a running command nothing is sent.
pub proof fn law_no_group_no_signal(pgid: i32, signal: Signal)
    requires
        pgid <= 0,
    ensures
        to_group(pgid, signal) is None,
{
}

/// What is sent tells the group and the signal: two deliveries are the same
/// only for the same group and the same signal.
pub proof fn law_deliveries_are_distinct(pgid: i32, signal: Signal, pgid2: i32, signal2: Signal)
    requires
        pgid > 0,
        to_group(pgid, signal) == to_group(pgid2, signal2),
    ensures
        pgid == pgid2,
        signal == signal2,
{
}

} // verus!
