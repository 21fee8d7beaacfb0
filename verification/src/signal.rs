//! Signal-name resolution and configuration validation. A
//! human-supplied signal spelling — mixed case, with or without a
//! leading "SIG", or a numeric alias — resolves against a fixed table
//! once, up front; unknown spellings are a configuration error. The
//! guarded batch path is validated here too, before any sampling.

use vstd::prelude::*;
use vstd::string::*;

use crate::text::{ci_eq_seq, lemma_ci_eq_pointwise, str_eq_ci};

verus! {

/// The signals the table knows, by mnemonic.
#[derive(Clone, Copy, PartialEq, Eq, Structural, Debug)]
pub enum Signal {
    Kill,
    Term,
    Int,
    Hup,
    Quit,
    Usr1,
    Usr2,
    Stop,
    Cont,
}

/// A fatal configuration mistake, reported before anything is sampled
/// or signalled.
#[derive(Debug)]
pub enum ConfigError {
    /// The signal spelling matched nothing in the table; carries the
    /// text as given.
    UnknownSignal(String),
    /// Batch kill was requested with neither a name filter nor a port
    /// filter.
    MissingBatchFilter,
}

/// The spelling begins with "SIG", in any case.
pub open spec fn starts_with_sig(s: Seq<char>) -> bool {
    s.len() >= 3 && ci_eq_seq(s.subrange(0, 3), "SIG"@)
}

/// The fixed table: each mnemonic and its numeric alias, matched with
/// ASCII case folded away.
pub open spec fn sig_table_lookup(t: Seq<char>) -> Option<Signal> {
    if ci_eq_seq(t, "KILL"@) || ci_eq_seq(t, "9"@) {
        Option::Some(Signal::Kill)
    } else if ci_eq_seq(t, "TERM"@) || ci_eq_seq(t, "15"@) {
        Option::Some(Signal::Term)
    } else if ci_eq_seq(t, "INT"@) || ci_eq_seq(t, "2"@) {
        Option::Some(Signal::Int)
    } else if ci_eq_seq(t, "HUP"@) || ci_eq_seq(t, "1"@) {
        Option::Some(Signal::Hup)
    } else if ci_eq_seq(t, "QUIT"@) || ci_eq_seq(t, "3"@) {
        Option::Some(Signal::Quit)
    } else if ci_eq_seq(t, "USR1"@) || ci_eq_seq(t, "10"@) {
        Option::Some(Signal::Usr1)
    } else if ci_eq_seq(t, "USR2"@) || ci_eq_seq(t, "12"@) {
        Option::Some(Signal::Usr2)
    } else if ci_eq_seq(t, "STOP"@) || ci_eq_seq(t, "19"@) {
        Option::Some(Signal::Stop)
    } else if ci_eq_seq(t, "CONT"@) || ci_eq_seq(t, "18"@) {
        Option::Some(Signal::Cont)
    } else {
        Option::None
    }
}

/// What a spelling resolves to: one leading "SIG" is stripped, the
/// remainder is looked up in the table.
pub open spec fn parse_signal_spec(s: Seq<char>) -> Option<Signal> {
    if starts_with_sig(s) {
        sig_table_lookup(s.skip(3))
    } else {
        sig_table_lookup(s)
    }
}

/// Resolve a signal spelling, or report it unknown; the error carries
/// the spelling as given.
pub fn parse_signal(signal_str: &str) -> (r: Result<Signal, ConfigError>)
    ensures
        match r {
            Result::Ok(sig) => parse_signal_spec(signal_str@) == Option::Some(sig),
            Result::Err(e) => parse_signal_spec(signal_str@) is None && (e matches
            ConfigError::UnknownSignal(t) && t@ == signal_str@),
        },
{
    let len = signal_str.unicode_len();
    let rest: &str = if len >= 3 {
        let pre = signal_str.substring_char(0, 3);
        if str_eq_ci(pre, "SIG") {
            signal_str.substring_char(3, len)
        } else {
            signal_str
        }
    } else {
        signal_str
    };
    proof {
        if starts_with_sig(signal_str@) {
            assert(rest@ == signal_str@.skip(3));
        } else {
            assert(rest@ == signal_str@);
        }
    }
    let found: Option<Signal> = if str_eq_ci(rest, "KILL") || str_eq_ci(rest, "9") {
        Option::Some(Signal::Kill)
    } else if str_eq_ci(rest, "TERM") || str_eq_ci(rest, "15") {
        Option::Some(Signal::Term)
    } else if str_eq_ci(rest, "INT") || str_eq_ci(rest, "2") {
        Option::Some(Signal::Int)
    } else if str_eq_ci(rest, "HUP") || str_eq_ci(rest, "1") {
        Option::Some(Signal::Hup)
    } else if str_eq_ci(rest, "QUIT") || str_eq_ci(rest, "3") {
        Option::Some(Signal::Quit)
    } else if str_eq_ci(rest, "USR1") || str_eq_ci(rest, "10") {
        Option::Some(Signal::Usr1)
    } else if str_eq_ci(rest, "USR2") || str_eq_ci(rest, "12") {
        Option::Some(Signal::Usr2)
    } else if str_eq_ci(rest, "STOP") || str_eq_ci(rest, "19") {
        Option::Some(Signal::Stop)
    } else if str_eq_ci(rest, "CONT") || str_eq_ci(rest, "18") {
        Option::Some(Signal::Cont)
    } else {
        Option::None
    };
    match found {
        Option::Some(sig) => Result::Ok(sig),
        Option::None => Result::Err(ConfigError::UnknownSignal(signal_str.to_owned())),
    }
}

/// Folded equality to a third sequence is blind to which of two folded
/// -equal sequences is asked.
proof fn lemma_ci_eq_equiv(a: Seq<char>, b: Seq<char>, c: Seq<char>)
    requires
        ci_eq_seq(a, b),
    ensures
        ci_eq_seq(a, c) == ci_eq_seq(b, c),
    decreases a.len(),
{
    if a.len() == 0 || a.len() != c.len() {
    } else {
        lemma_ci_eq_equiv(a.drop_first(), b.drop_first(), c.drop_first());
    }
}

/// The table sees only folded characters.
proof fn lemma_lookup_ci(a: Seq<char>, b: Seq<char>)
    requires
        ci_eq_seq(a, b),
    ensures
        sig_table_lookup(a) == sig_table_lookup(b),
{
    lemma_ci_eq_equiv(a, b, "KILL"@);
    lemma_ci_eq_equiv(a, b, "9"@);
    lemma_ci_eq_equiv(a, b, "TERM"@);
    lemma_ci_eq_equiv(a, b, "15"@);
    lemma_ci_eq_equiv(a, b, "INT"@);
    lemma_ci_eq_equiv(a, b, "2"@);
    lemma_ci_eq_equiv(a, b, "HUP"@);
    lemma_ci_eq_equiv(a, b, "1"@);
    lemma_ci_eq_equiv(a, b, "QUIT"@);
    lemma_ci_eq_equiv(a, b, "3"@);
    lemma_ci_eq_equiv(a, b, "USR1"@);
    lemma_ci_eq_equiv(a, b, "10"@);
    lemma_ci_eq_equiv(a, b, "USR2"@);
    lemma_ci_eq_equiv(a, b, "12"@);
    lemma_ci_eq_equiv(a, b, "STOP"@);
    lemma_ci_eq_equiv(a, b, "19"@);
    lemma_ci_eq_equiv(a, b, "CONT"@);
    lemma_ci_eq_equiv(a, b, "18"@);
}

/// A folded-equal prefix of folded-equal sequences.
proof fn lemma_ci_eq_take(a: Seq<char>, b: Seq<char>, n: int)
    requires
        ci_eq_seq(a, b),
        0 <= n <= a.len(),
    ensures
        ci_eq_seq(a.take(n), b.take(n)),
    decreases n,
{
    if n > 0 {
        assert(a.take(n).drop_first() =~= a.drop_first().take(n - 1));
        assert(b.take(n).drop_first() =~= b.drop_first().take(n - 1));
        lemma_ci_eq_take(a.drop_first(), b.drop_first(), n - 1);
    }
}

/// A folded-equal suffix of folded-equal sequences.
proof fn lemma_ci_eq_skip(a: Seq<char>, b: Seq<char>, n: int)
    requires
        ci_eq_seq(a, b),
        0 <= n <= a.len(),
    ensures
        ci_eq_seq(a.skip(n), b.skip(n)),
    decreases n,
{
    if n > 0 {
        assert(a.skip(n) =~= a.drop_first().skip(n - 1));
        assert(b.skip(n) =~= b.drop_first().skip(n - 1));
        lemma_ci_eq_skip(a.drop_first(), b.drop_first(), n - 1);
    } else {
        assert(a.skip(0) =~= a);
        assert(b.skip(0) =~= b);
    }
}

/// Resolution is blind to ASCII case: two spellings equal up to case
/// resolve to the same table entry, or both to none.
pub proof fn lemma_parse_signal_case_insensitive(a: Seq<char>, b: Seq<char>)
    requires
        ci_eq_seq(a, b),
    ensures
        parse_signal_spec(a) == parse_signal_spec(b),
{
    lemma_ci_eq_pointwise(a, b);
    if a.len() >= 3 {
        lemma_ci_eq_take(a, b, 3);
        assert(a.take(3) =~= a.subrange(0, 3));
        assert(b.take(3) =~= b.subrange(0, 3));
        lemma_ci_eq_equiv(a.subrange(0, 3), b.subrange(0, 3), "SIG"@);
    }
    assert(starts_with_sig(a) == starts_with_sig(b));
    if starts_with_sig(a) {
        lemma_ci_eq_skip(a, b, 3);
        lemma_lookup_ci(a.skip(3), b.skip(3));
    } else {
        lemma_lookup_ci(a, b);
    }
}

/// One leading "SIG" is transparent: prefixing a spelling that does
/// not itself begin with "SIG" changes nothing about what it resolves
/// to.
pub proof fn lemma_parse_signal_sig_prefix(s: Seq<char>)
    requires
        !starts_with_sig(s),
    ensures
        parse_signal_spec("SIG"@ + s) == parse_signal_spec(s),
{
    reveal_strlit("SIG");
    let t = "SIG"@ + s;
    assert(t.subrange(0, 3) =~= "SIG"@);
    crate::text::lemma_ci_eq_from_pointwise("SIG"@, "SIG"@);
    assert(starts_with_sig(t));
    assert(t.skip(3) =~= s);
}

/// Every spelling of the table resolves: each numeric alias gives the
/// same signal as its mnemonic.
pub proof fn lemma_signal_aliases()
    ensures
        parse_signal_spec("KILL"@) == Option::Some(Signal::Kill),
        parse_signal_spec("9"@) == Option::Some(Signal::Kill),
        parse_signal_spec("TERM"@) == Option::Some(Signal::Term),
        parse_signal_spec("15"@) == Option::Some(Signal::Term),
        parse_signal_spec("INT"@) == Option::Some(Signal::Int),
        parse_signal_spec("2"@) == Option::Some(Signal::Int),
        parse_signal_spec("HUP"@) == Option::Some(Signal::Hup),
        parse_signal_spec("1"@) == Option::Some(Signal::Hup),
        parse_signal_spec("QUIT"@) == Option::Some(Signal::Quit),
        parse_signal_spec("3"@) == Option::Some(Signal::Quit),
        parse_signal_spec("USR1"@) == Option::Some(Signal::Usr1),
        parse_signal_spec("10"@) == Option::Some(Signal::Usr1),
        parse_signal_spec("USR2"@) == Option::Some(Signal::Usr2),
        parse_signal_spec("12"@) == Option::Some(Signal::Usr2),
        parse_signal_spec("STOP"@) == Option::Some(Signal::Stop),
        parse_signal_spec("19"@) == Option::Some(Signal::Stop),
        parse_signal_spec("CONT"@) == Option::Some(Signal::Cont),
        parse_signal_spec("18"@) == Option::Some(Signal::Cont),
{
    reveal_strlit("SIG");
    reveal_strlit("KILL");
    reveal_strlit("9");
    reveal_strlit("TERM");
    reveal_strlit("15");
    reveal_strlit("INT");
    reveal_strlit("2");
    reveal_strlit("HUP");
    reveal_strlit("1");
    reveal_strlit("QUIT");
    reveal_strlit("3");
    reveal_strlit("USR1");
    reveal_strlit("10");
    reveal_strlit("USR2");
    reveal_strlit("12");
    reveal_strlit("STOP");
    reveal_strlit("19");
    reveal_strlit("CONT");
    reveal_strlit("18");
    reveal_with_fuel(ci_eq_seq, 6);
}

/// The guarded batch path: without a name filter or a port filter the
/// request is rejected before any sampling, so that a stray batch call
/// cannot signal every process on the host.
pub fn check_batch_guard(filter: &Option<String>, port_filter: Option<u16>) -> (r: Result<
    (),
    ConfigError,
>)
    ensures
        r is Ok <==> (filter is Some || port_filter is Some),
        r is Err ==> (r matches Result::Err(e) && e matches ConfigError::MissingBatchFilter),
{
    if filter.is_some() || port_filter.is_some() {
        Result::Ok(())
    } else {
        Result::Err(ConfigError::MissingBatchFilter)
    }
}

} // verus!
