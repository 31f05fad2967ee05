//! The native command-line encoder.
//!
//! A program name and its arguments are joined into a single wide-character
//! command line such that the native argument parser recovers them exactly.
//! The program name is always quoted; an argument is quoted when it is
//! empty or contains a space or tab.  Inside a token, a run of N
//! backslashes before a literal quote is emitted as 2N+1 backslashes before
//! the quote, and a trailing run of N backslashes in a quoted token is
//! emitted as 2N backslashes before the closing quote; all other
//! backslashes are copied through unchanged.

use vstd::prelude::*;

use crate::error::Error;
use crate::wide::{contains_nul, has_nul};

verus! {

/// The space unit.
pub const SPACE: u16 = 0x20;

/// The horizontal-tab unit.
pub const TAB: u16 = 0x09;

/// The double-quote unit.
pub const QUOTE: u16 = 0x22;

/// The backslash unit.
pub const BACKSLASH: u16 = 0x5c;

/// A run of backslashes.
pub open spec fn backslashes(n: nat) -> Seq<u16> {
    Seq::new(n, |i: int| BACKSLASH)
}

/// Is a token quoted when encoded?  The program name always is; an argument
/// is when it is empty or contains a space or tab.
pub open spec fn needs_quotes(arg: Seq<u16>, force: bool) -> bool {
    force || arg.len() == 0 || arg.contains(SPACE) || arg.contains(TAB)
}

/// The escaped tail of a token, from position `i`, with `bs` the length of
/// the run of backslashes just before position `i`: each backslash is
/// copied as seen; a quote is preceded by one more backslash than the run
/// before it (doubling the run and adding one); at the end of a quoted
/// token the trailing run is doubled and the closing quote appended.
pub open spec fn esc_from(arg: Seq<u16>, i: int, bs: nat, quoted: bool) -> Seq<u16>
    decreases arg.len() - i,
{
    if i < 0 || i >= arg.len() {
        if quoted {
            backslashes(bs) + seq![QUOTE]
        } else {
            Seq::empty()
        }
    } else if arg[i] == BACKSLASH {
        seq![BACKSLASH] + esc_from(arg, i + 1, bs + 1, quoted)
    } else if arg[i] == QUOTE {
        backslashes(bs + 1) + seq![QUOTE] + esc_from(arg, i + 1, 0, quoted)
    } else {
        seq![arg[i]] + esc_from(arg, i + 1, 0, quoted)
    }
}

/// A whole encoded token: the escaped body, wrapped in quotes when quoting
/// applies.
pub open spec fn encoded_arg(arg: Seq<u16>, force: bool) -> Seq<u16> {
    if needs_quotes(arg, force) {
        seq![QUOTE] + esc_from(arg, 0, 0, true)
    } else {
        esc_from(arg, 0, 0, false)
    }
}

/// The argument list seen abstractly.
pub open spec fn args_view(s: Seq<Vec<u16>>) -> Seq<Seq<u16>> {
    s.map_values(|v: Vec<u16>| v@)
}

/// The full command line: the always-quoted program, then each encoded
/// argument, space-joined.
pub open spec fn spec_command_line(prog: Seq<u16>, args: Seq<Seq<u16>>) -> Seq<u16>
    decreases args.len(),
{
    if args.len() == 0 {
        encoded_arg(prog, true)
    } else {
        spec_command_line(prog, args.drop_last()) + seq![SPACE] + encoded_arg(args.last(), false)
    }
}

/// Scan for a given unit.
fn contains_unit(s: &[u16], u: u16) -> (r: bool)
    ensures
        r == s@.contains(u),
{
    let mut i: usize = 0;
    while i < s.len()
        invariant
            0 <= i <= s@.len(),
            forall|j: int| 0 <= j < i ==> s@[j] != u,
        decreases s@.len() - i,
    {
        if s[i] == u {
            return true;
        }
        i = i + 1;
    }
    false
}

/// Append a run of backslashes.
fn push_backslashes(cmd: &mut Vec<u16>, n: usize)
    ensures
        final(cmd)@ == old(cmd)@ + backslashes(n as nat),
{
    let mut k: usize = 0;
    while k < n
        invariant
            0 <= k <= n,
            cmd@ == old(cmd)@ + backslashes(k as nat),
        decreases n - k,
    {
        cmd.push(BACKSLASH);
        proof {
            assert(old(cmd)@ + backslashes(k as nat) + seq![BACKSLASH] =~= old(cmd)@
                + backslashes((k + 1) as nat));
        }
        k = k + 1;
    }
}

/// Append one encoded token to the command line under construction.
///
/// Fails, leaving the command line untouched, exactly when the token holds
/// a nul unit.
fn append_arg(cmd: &mut Vec<u16>, arg: &[u16], force_quotes: bool) -> (r: Result<(), Error>)
    ensures
        r is Ok <==> !contains_nul(arg@),
        r is Ok ==> final(cmd)@ == old(cmd)@ + encoded_arg(arg@, force_quotes),
        r is Err ==> final(cmd)@ == old(cmd)@ && r->Err_0 == Error::InvalidInput,
{
    if has_nul(arg) {
        return Err(Error::InvalidInput);
    }
    let quote = force_quotes || arg.len() == 0 || contains_unit(arg, SPACE) || contains_unit(
        arg,
        TAB,
    );
    if quote {
        cmd.push(QUOTE);
    }
    proof {
        assert(quote == needs_quotes(arg@, force_quotes));
        assert(cmd@ + esc_from(arg@, 0, 0, quote) =~= old(cmd)@ + encoded_arg(
            arg@,
            force_quotes,
        ));
    }
    let mut bs: usize = 0;
    let mut i: usize = 0;
    while i < arg.len()
        invariant
            0 <= i <= arg@.len(),
            bs <= i,
            quote == needs_quotes(arg@, force_quotes),
            cmd@ + esc_from(arg@, i as int, bs as nat, quote) == old(cmd)@ + encoded_arg(
                arg@,
                force_quotes,
            ),
        decreases arg@.len() - i,
    {
        let x = arg[i];
        let ghost cmd_pre = cmd@;
        if x == BACKSLASH {
            cmd.push(BACKSLASH);
            proof {
                assert(cmd@ + esc_from(arg@, i + 1, (bs + 1) as nat, quote) =~= cmd_pre
                    + esc_from(arg@, i as int, bs as nat, quote));
            }
            bs = bs + 1;
        } else if x == QUOTE {
            push_backslashes(cmd, bs + 1);
            cmd.push(QUOTE);
            proof {
                assert(cmd@ + esc_from(arg@, i + 1, 0, quote) =~= cmd_pre + esc_from(
                    arg@,
                    i as int,
                    bs as nat,
                    quote,
                ));
            }
            bs = 0;
        } else {
            cmd.push(x);
            proof {
                assert(cmd@ + esc_from(arg@, i + 1, 0, quote) =~= cmd_pre + esc_from(
                    arg@,
                    i as int,
                    bs as nat,
                    quote,
                ));
            }
            bs = 0;
        }
        i = i + 1;
    }
    if quote {
        let ghost cmd_pre = cmd@;
        push_backslashes(cmd, bs);
        cmd.push(QUOTE);
        proof {
            assert(cmd@ =~= cmd_pre + esc_from(arg@, arg@.len() as int, bs as nat, quote));
        }
    } else {
        proof {
            assert(cmd@ + esc_from(arg@, arg@.len() as int, bs as nat, quote) =~= cmd@);
        }
    }
    Ok(())
}

/// Encode the command line for a program and its arguments.
///
/// The result carries no trailing nul terminator.  Fails with
/// [`Error::InvalidInput`] exactly when the program or any argument holds a
/// nul unit — before anything native would be attempted.
pub fn make_command_line(prog: &[u16], args: &[Vec<u16>]) -> (r: Result<Vec<u16>, Error>)
    ensures
        r is Ok <==> !contains_nul(prog@) && (forall|i: int|
            0 <= i < args@.len() ==> !contains_nul(args@[i]@)),
        r is Ok ==> r->Ok_0@ == spec_command_line(prog@, args_view(args@)),
        r is Err ==> r->Err_0 == Error::InvalidInput,
{
    let mut cmd: Vec<u16> = Vec::new();
    match append_arg(&mut cmd, prog, true) {
        Ok(_) => {},
        Err(e) => {
            return Err(e);
        },
    }
    proof {
        assert(cmd@ =~= spec_command_line(prog@, args_view(args@).take(0)));
        assert(args_view(args@).take(0) =~= Seq::<Seq<u16>>::empty());
    }
    let mut i: usize = 0;
    while i < args.len()
        invariant
            0 <= i <= args@.len(),
            !contains_nul(prog@),
            forall|j: int| 0 <= j < i ==> !contains_nul(args@[j]@),
            cmd@ == spec_command_line(prog@, args_view(args@).take(i as int)),
        decreases args@.len() - i,
    {
        cmd.push(SPACE);
        let ghost cmd_pre = cmd@;
        match append_arg(&mut cmd, args[i].as_slice(), false) {
            Ok(_) => {},
            Err(e) => {
                return Err(e);
            },
        }
        proof {
            let av = args_view(args@);
            assert(av.take(i + 1).drop_last() =~= av.take(i as int));
            assert(av.take(i + 1).last() == args@[i as int]@);
            assert(cmd@ =~= spec_command_line(prog@, av.take(i + 1)));
        }
        i = i + 1;
    }
    proof {
        assert(args_view(args@).take(args@.len() as int) =~= args_view(args@));
    }
    Ok(cmd)
}

// What follows models the native argument parser and proves that it
// recovers exactly what the encoder above produced.

/// The native argument-parsing algorithm, as a state machine over the
/// remaining input: `in_q` is whether a quoted part is open, `bs` counts
/// pending backslashes not yet resolved, `cur` is the token accumulated so
/// far, `started` whether a token is open, `acc` the tokens finished.  A
/// run of N pending backslashes before a quote resolves to N/2 literal
/// backslashes, plus a literal quote when N is odd; an even run leaves the
/// quote to open or close a quoted part.  Backslashes not before a quote
/// are literal.  Unquoted spaces and tabs finish a token.
pub open spec fn parse_st(
    cmd: Seq<u16>,
    in_q: bool,
    bs: nat,
    cur: Seq<u16>,
    started: bool,
    acc: Seq<Seq<u16>>,
) -> Seq<Seq<u16>>
    decreases cmd.len(),
{
    if cmd.len() == 0 {
        if started || bs > 0 {
            acc.push(cur + backslashes(bs))
        } else {
            acc
        }
    } else {
        let c = cmd[0];
        let rest = cmd.skip(1);
        if c == BACKSLASH {
            parse_st(rest, in_q, bs + 1, cur, true, acc)
        } else if c == QUOTE {
            if bs % 2 == 1 {
                parse_st(rest, in_q, 0, cur + backslashes(bs / 2) + seq![QUOTE], true, acc)
            } else {
                parse_st(rest, !in_q, 0, cur + backslashes(bs / 2), true, acc)
            }
        } else if (c == SPACE || c == TAB) && !in_q {
            if started || bs > 0 {
                parse_st(rest, false, 0, Seq::empty(), false, acc.push(cur + backslashes(bs)))
            } else {
                parse_st(rest, false, 0, cur, started, acc)
            }
        } else {
            parse_st(rest, in_q, 0, cur + backslashes(bs) + seq![c], true, acc)
        }
    }
}

/// What the native parser makes of a command line.
pub open spec fn spec_parse(cmd: Seq<u16>) -> Seq<Seq<u16>> {
    parse_st(cmd, false, 0, Seq::empty(), false, Seq::empty())
}

/// The arguments of a command line, encoded one after the other, each
/// preceded by the joining space.
pub open spec fn encoded_tail(args: Seq<Seq<u16>>) -> Seq<u16>
    decreases args.len(),
{
    if args.len() == 0 {
        Seq::empty()
    } else {
        seq![SPACE] + encoded_arg(args[0], false) + encoded_tail(args.skip(1))
    }
}

/// Appending one more argument at the end of the tail.
proof fn lemma_tail_snoc(s: Seq<Seq<u16>>, x: Seq<u16>)
    ensures
        encoded_tail(s.push(x)) == encoded_tail(s) + seq![SPACE] + encoded_arg(x, false),
    decreases s.len(),
{
    let t = s.push(x);
    if s.len() == 0 {
        assert(t[0] == x);
        assert(t.skip(1) =~= Seq::<Seq<u16>>::empty());
        assert(encoded_tail(t) == seq![SPACE] + encoded_arg(t[0], false) + encoded_tail(
            t.skip(1),
        ));
        assert(encoded_tail(Seq::<Seq<u16>>::empty()) == Seq::<u16>::empty());
        assert(encoded_tail(t) =~= encoded_tail(s) + seq![SPACE] + encoded_arg(x, false));
    } else {
        assert(t[0] == s[0]);
        assert(t.skip(1) =~= s.skip(1).push(x));
        lemma_tail_snoc(s.skip(1), x);
        assert(encoded_tail(t) == seq![SPACE] + encoded_arg(t[0], false) + encoded_tail(
            t.skip(1),
        ));
        assert(encoded_tail(t.skip(1)) == encoded_tail(s.skip(1)) + seq![SPACE] + encoded_arg(
            x,
            false,
        ));
        assert(encoded_tail(s) == seq![SPACE] + encoded_arg(s[0], false) + encoded_tail(
            s.skip(1),
        ));
        assert(encoded_tail(t) =~= encoded_tail(s) + seq![SPACE] + encoded_arg(x, false));
    }
}

/// The command line is the encoded program followed by the encoded tail.
proof fn lemma_command_line_shape(prog: Seq<u16>, args: Seq<Seq<u16>>)
    ensures
        spec_command_line(prog, args) == encoded_arg(prog, true) + encoded_tail(args),
    decreases args.len(),
{
    if args.len() == 0 {
        assert(spec_command_line(prog, args) =~= encoded_arg(prog, true) + encoded_tail(args));
    } else {
        lemma_command_line_shape(prog, args.drop_last());
        lemma_tail_snoc(args.drop_last(), args.last());
        assert(args.drop_last().push(args.last()) =~= args);
        assert(spec_command_line(prog, args) =~= encoded_arg(prog, true) + encoded_tail(args));
    }
}

/// The parser consumes a run of backslashes by counting it.
proof fn lemma_parse_backslashes(
    m: nat,
    rest: Seq<u16>,
    in_q: bool,
    bs: nat,
    cur: Seq<u16>,
    started: bool,
    acc: Seq<Seq<u16>>,
)
    ensures
        parse_st(backslashes(m) + rest, in_q, bs, cur, started, acc) == parse_st(
            rest,
            in_q,
            bs + m,
            cur,
            started || m > 0,
            acc,
        ),
    decreases m,
{
    if m == 0 {
        assert(backslashes(0) + rest =~= rest);
    } else {
        let s = backslashes(m) + rest;
        assert(s[0] == BACKSLASH);
        assert(s.skip(1) =~= backslashes((m - 1) as nat) + rest);
        lemma_parse_backslashes((m - 1) as nat, rest, in_q, (bs + 1) as nat, cur, true, acc);
    }
}

/// Parsing the escaped body of a quoted token: from inside the quotes,
/// with `bs` backslashes pending, the parser accumulates exactly the
/// remaining source units and leaves the quotes at the closing quote.
proof fn lemma_parse_quoted_body(
    a: Seq<u16>,
    i: int,
    n: nat,
    rest: Seq<u16>,
    cur: Seq<u16>,
    acc: Seq<Seq<u16>>,
)
    requires
        0 <= i <= a.len(),
    ensures
        parse_st(esc_from(a, i, n, true) + rest, true, n, cur, true, acc) == parse_st(
            rest,
            false,
            0,
            cur + backslashes(n) + a.skip(i),
            true,
            acc,
        ),
    decreases a.len() - i,
{
    if i == a.len() {
        let s = esc_from(a, i, n, true) + rest;
        assert(esc_from(a, i, n, true) == backslashes(n) + seq![QUOTE]);
        assert(s =~= backslashes(n) + (seq![QUOTE] + rest));
        lemma_parse_backslashes(n, seq![QUOTE] + rest, true, n, cur, true, acc);
        let q = seq![QUOTE] + rest;
        assert(q[0] == QUOTE);
        assert(q.skip(1) =~= rest);
        assert((n + n) % 2 == 0);
        assert((n + n) / 2 == n);
        assert(cur + backslashes(n) + a.skip(i) =~= cur + backslashes(n));
    } else if a[i] == BACKSLASH {
        let s = esc_from(a, i, n, true) + rest;
        assert(s[0] == BACKSLASH);
        assert(s.skip(1) =~= esc_from(a, i + 1, n + 1, true) + rest);
        lemma_parse_quoted_body(a, i + 1, n + 1, rest, cur, acc);
        assert(cur + backslashes(n + 1) + a.skip(i + 1) =~= cur + backslashes(n) + a.skip(i));
    } else if a[i] == QUOTE {
        let s = esc_from(a, i, n, true) + rest;
        assert(esc_from(a, i, n, true) == backslashes(n + 1) + seq![QUOTE] + esc_from(
            a,
            i + 1,
            0,
            true,
        ));
        assert(s =~= backslashes(n + 1) + (seq![QUOTE] + (esc_from(a, i + 1, 0, true) + rest)));
        lemma_parse_backslashes(
            n + 1,
            seq![QUOTE] + (esc_from(a, i + 1, 0, true) + rest),
            true,
            n,
            cur,
            true,
            acc,
        );
        let q = seq![QUOTE] + (esc_from(a, i + 1, 0, true) + rest);
        assert(q[0] == QUOTE);
        assert(q.skip(1) =~= esc_from(a, i + 1, 0, true) + rest);
        assert((n + n + 1) % 2 == 1);
        assert((n + n + 1) / 2 == n);
        lemma_parse_quoted_body(a, i + 1, 0, rest, cur + backslashes(n) + seq![QUOTE], acc);
        assert(cur + backslashes(n) + seq![QUOTE] + backslashes(0) + a.skip(i + 1) =~= cur
            + backslashes(n) + a.skip(i));
    } else {
        let s = esc_from(a, i, n, true) + rest;
        assert(s[0] == a[i]);
        assert(s.skip(1) =~= esc_from(a, i + 1, 0, true) + rest);
        assert(a[i] != BACKSLASH && a[i] != QUOTE);
        lemma_parse_quoted_body(a, i + 1, 0, rest, cur + backslashes(n) + seq![a[i]], acc);
        assert(cur + backslashes(n) + seq![a[i]] + backslashes(0) + a.skip(i + 1) =~= cur
            + backslashes(n) + a.skip(i));
    }
}

/// Parsing the escaped body of an unquoted token: outside quotes, with
/// `bs` backslashes pending, the parser accumulates exactly the remaining
/// source units, with the trailing backslash run left pending.
proof fn lemma_parse_unquoted_body(
    a: Seq<u16>,
    i: int,
    n: nat,
    rest: Seq<u16>,
    cur: Seq<u16>,
    started: bool,
    acc: Seq<Seq<u16>>,
)
    requires
        0 <= i <= a.len(),
        !needs_quotes(a, false),
    ensures
        exists|m: nat, cur2: Seq<u16>, started2: bool|
            {
                &&& #[trigger] parse_st(esc_from(a, i, n, false) + rest, false, n, cur, started, acc)
                    == parse_st(rest, false, m, cur2, started2, acc)
                &&& cur2 + backslashes(m) == cur + backslashes(n) + a.skip(i)
                &&& (started2 || m > 0) == (started || n > 0 || i < a.len())
            },
    decreases a.len() - i,
{
    if i == a.len() {
        assert(esc_from(a, i, n, false) + rest =~= rest);
        assert(cur + backslashes(n) + a.skip(i) =~= cur + backslashes(n));
        assert(parse_st(esc_from(a, i, n, false) + rest, false, n, cur, started, acc) == parse_st(
            rest,
            false,
            n,
            cur,
            started,
            acc,
        ));
    } else if a[i] == BACKSLASH {
        let s = esc_from(a, i, n, false) + rest;
        assert(s[0] == BACKSLASH);
        assert(s.skip(1) =~= esc_from(a, i + 1, n + 1, false) + rest);
        lemma_parse_unquoted_body(a, i + 1, n + 1, rest, cur, true, acc);
        let (m, cur2, started2) = choose|m: nat, cur2: Seq<u16>, started2: bool|
            {
                &&& #[trigger] parse_st(
                    esc_from(a, i + 1, n + 1, false) + rest,
                    false,
                    (n + 1) as nat,
                    cur,
                    true,
                    acc,
                ) == parse_st(rest, false, m, cur2, started2, acc)
                &&& cur2 + backslashes(m) == cur + backslashes(n + 1) + a.skip(i + 1)
                &&& (started2 || m > 0) == (true || n + 1 > 0 || i + 1 < a.len())
            };
        assert(cur + backslashes(n + 1) + a.skip(i + 1) =~= cur + backslashes(n) + a.skip(i));
        assert(parse_st(s, false, n, cur, started, acc) == parse_st(rest, false, m, cur2, started2, acc));
    } else if a[i] == QUOTE {
        let s = esc_from(a, i, n, false) + rest;
        assert(esc_from(a, i, n, false) == backslashes(n + 1) + seq![QUOTE] + esc_from(
            a,
            i + 1,
            0,
            false,
        ));
        assert(s =~= backslashes(n + 1) + (seq![QUOTE] + (esc_from(a, i + 1, 0, false) + rest)));
        lemma_parse_backslashes(
            n + 1,
            seq![QUOTE] + (esc_from(a, i + 1, 0, false) + rest),
            false,
            n,
            cur,
            started,
            acc,
        );
        let q = seq![QUOTE] + (esc_from(a, i + 1, 0, false) + rest);
        assert(q[0] == QUOTE);
        assert(q.skip(1) =~= esc_from(a, i + 1, 0, false) + rest);
        assert((n + n + 1) % 2 == 1);
        assert((n + n + 1) / 2 == n);
        lemma_parse_unquoted_body(a, i + 1, 0, rest, cur + backslashes(n) + seq![QUOTE], true, acc);
        let (m, cur2, started2) = choose|m: nat, cur2: Seq<u16>, started2: bool|
            {
                &&& #[trigger] parse_st(
                    esc_from(a, i + 1, 0, false) + rest,
                    false,
                    0,
                    cur + backslashes(n) + seq![QUOTE],
                    true,
                    acc,
                ) == parse_st(rest, false, m, cur2, started2, acc)
                &&& cur2 + backslashes(m) == cur + backslashes(n) + seq![QUOTE] + backslashes(0)
                    + a.skip(i + 1)
                &&& (started2 || m > 0) == (true || 0 > 0 || i + 1 < a.len())
            };
        assert(cur + backslashes(n) + seq![QUOTE] + backslashes(0) + a.skip(i + 1) =~= cur
            + backslashes(n) + a.skip(i));
        assert(parse_st(s, false, n, cur, started, acc) == parse_st(rest, false, m, cur2, started2, acc));
    } else {
        let s = esc_from(a, i, n, false) + rest;
        assert(s[0] == a[i]);
        assert(s.skip(1) =~= esc_from(a, i + 1, 0, false) + rest);
        assert(a.contains(a[i]) ==> true);
        assert(a[i] != SPACE && a[i] != TAB) by {
            assert(0 <= i < a.len());
            if a[i] == SPACE {
                assert(a.contains(SPACE));
            }
            if a[i] == TAB {
                assert(a.contains(TAB));
            }
        }
        lemma_parse_unquoted_body(a, i + 1, 0, rest, cur + backslashes(n) + seq![a[i]], true, acc);
        let (m, cur2, started2) = choose|m: nat, cur2: Seq<u16>, started2: bool|
            {
                &&& #[trigger] parse_st(
                    esc_from(a, i + 1, 0, false) + rest,
                    false,
                    0,
                    cur + backslashes(n) + seq![a[i]],
                    true,
                    acc,
                ) == parse_st(rest, false, m, cur2, started2, acc)
                &&& cur2 + backslashes(m) == cur + backslashes(n) + seq![a[i]] + backslashes(0)
                    + a.skip(i + 1)
                &&& (started2 || m > 0) == (true || 0 > 0 || i + 1 < a.len())
            };
        assert(cur + backslashes(n) + seq![a[i]] + backslashes(0) + a.skip(i + 1) =~= cur
            + backslashes(n) + a.skip(i));
        assert(parse_st(s, false, n, cur, started, acc) == parse_st(rest, false, m, cur2, started2, acc));
    }
}

/// Parsing one whole encoded token from the gap between tokens: the token
/// comes out as the next finished token, whether the input continues with
/// a joining space or ends.
proof fn lemma_parse_token(a: Seq<u16>, force: bool, rest: Seq<u16>, acc: Seq<Seq<u16>>)
    requires
        rest.len() == 0 || rest[0] == SPACE,
    ensures
        rest.len() == 0 ==> parse_st(encoded_arg(a, force) + rest, false, 0, Seq::empty(), false, acc)
            == acc.push(a),
        rest.len() > 0 ==> parse_st(encoded_arg(a, force) + rest, false, 0, Seq::empty(), false, acc)
            == parse_st(rest.skip(1), false, 0, Seq::empty(), false, acc.push(a)),
{
    if needs_quotes(a, force) {
        let s = encoded_arg(a, force) + rest;
        assert(s[0] == QUOTE);
        assert(s.skip(1) =~= esc_from(a, 0, 0, true) + rest);
        assert(0nat % 2 == 0);
        lemma_parse_quoted_body(a, 0, 0, rest, Seq::empty(), acc);
        let cur2 = Seq::<u16>::empty() + backslashes(0) + a.skip(0);
        assert(cur2 =~= a);
        if rest.len() == 0 {
            assert(parse_st(rest, false, 0, cur2, true, acc) == acc.push(cur2 + backslashes(0)));
            assert(cur2 + backslashes(0) =~= a);
        } else {
            assert(rest[0] == SPACE);
            assert(parse_st(rest, false, 0, cur2, true, acc) == parse_st(
                rest.skip(1),
                false,
                0,
                Seq::empty(),
                false,
                acc.push(cur2 + backslashes(0)),
            ));
            assert(cur2 + backslashes(0) =~= a);
        }
    } else {
        assert(a.len() > 0);
        lemma_parse_unquoted_body(a, 0, 0, rest, Seq::empty(), false, acc);
        let (m, cur2, started2) = choose|m: nat, cur2: Seq<u16>, started2: bool|
            {
                &&& #[trigger] parse_st(
                    esc_from(a, 0, 0, false) + rest,
                    false,
                    0,
                    Seq::empty(),
                    false,
                    acc,
                ) == parse_st(rest, false, m, cur2, started2, acc)
                &&& cur2 + backslashes(m) == Seq::<u16>::empty() + backslashes(0) + a.skip(0)
                &&& (started2 || m > 0) == (false || 0 > 0 || 0 < a.len())
            };
        assert(cur2 + backslashes(m) =~= a);
        assert(started2 || m > 0);
        if rest.len() == 0 {
            assert(parse_st(rest, false, m, cur2, started2, acc) == acc.push(
                cur2 + backslashes(m),
            ));
        } else {
            assert(rest[0] == SPACE);
            assert(parse_st(rest, false, m, cur2, started2, acc) == parse_st(
                rest.skip(1),
                false,
                0,
                Seq::empty(),
                false,
                acc.push(cur2 + backslashes(m)),
            ));
        }
    }
}

/// Parsing a chain of encoded arguments, each consumed from the gap
/// between tokens, appends them all to the finished tokens.
proof fn lemma_parse_chain(args: Seq<Seq<u16>>, acc: Seq<Seq<u16>>)
    requires
        args.len() > 0,
    ensures
        parse_st(
            encoded_arg(args[0], false) + encoded_tail(args.skip(1)),
            false,
            0,
            Seq::empty(),
            false,
            acc,
        ) == acc + args,
    decreases args.len(),
{
    let tail = encoded_tail(args.skip(1));
    if args.skip(1).len() == 0 {
        assert(tail =~= Seq::<u16>::empty());
        lemma_parse_token(args[0], false, tail, acc);
        assert(acc.push(args[0]) =~= acc + args);
    } else {
        let rest_args = args.skip(1);
        assert(tail == seq![SPACE] + encoded_arg(rest_args[0], false) + encoded_tail(
            rest_args.skip(1),
        ));
        assert(tail.len() > 0 && tail[0] == SPACE);
        lemma_parse_token(args[0], false, tail, acc);
        assert(tail.skip(1) =~= encoded_arg(rest_args[0], false) + encoded_tail(
            rest_args.skip(1),
        ));
        lemma_parse_chain(rest_args, acc.push(args[0]));
        assert(acc.push(args[0]) + rest_args =~= acc + args);
    }
}

/// Round trip: the native argument parser recovers, from an encoded
/// command line, exactly the program followed by the arguments — for every
/// program and every argument list.
pub proof fn lemma_command_line_round_trip(prog: Seq<u16>, args: Seq<Seq<u16>>)
    ensures
        spec_parse(spec_command_line(prog, args)) == seq![prog] + args,
{
    lemma_command_line_shape(prog, args);
    let tail = encoded_tail(args);
    if args.len() == 0 {
        assert(tail =~= Seq::<u16>::empty());
        lemma_parse_token(prog, true, tail, Seq::empty());
        assert(Seq::<Seq<u16>>::empty().push(prog) =~= seq![prog] + args);
    } else {
        assert(tail == seq![SPACE] + encoded_arg(args[0], false) + encoded_tail(args.skip(1)));
        assert(tail.len() > 0 && tail[0] == SPACE);
        lemma_parse_token(prog, true, tail, Seq::empty());
        assert(tail.skip(1) =~= encoded_arg(args[0], false) + encoded_tail(args.skip(1)));
        lemma_parse_chain(args, Seq::<Seq<u16>>::empty().push(prog));
        assert(Seq::<Seq<u16>>::empty().push(prog) + args =~= seq![prog] + args);
    }
}

} // verus!
