//! Command-line quoting.
//!
//! A child's command line is one wide string. Each token — the program name
//! first, then every argument — is wrapped in double quotes; inside a token
//! every literal quote is escaped with a backslash, and a run of
//! backslashes that stands right before a quote (including the closing
//! quote) is doubled. Tokens are joined with single spaces.
//!
//! The point of the scheme is the round trip: the convention by which the
//! target process splits its command line back into tokens recovers
//! exactly the tokens that were joined. That convention is written down
//! here as `parse_args`, and `lemma_command_line_round_trip` proves the
//! round trip for every token list.

use vstd::prelude::*;

verus! {

/// The double-quote code unit.
pub const QUOTE: u16 = 34;

/// The backslash code unit.
pub const BACKSLASH: u16 = 92;

/// The space code unit.
pub const SPACE: u16 = 32;

/// The terminating zero code unit.
pub const NUL: u16 = 0;

/// The length of the leading run of backslashes.
pub open spec fn bs_run(s: Seq<u16>) -> nat
    decreases s.len(),
{
    if s.len() > 0 && s[0] == BACKSLASH {
        1 + bs_run(s.drop_first())
    } else {
        0
    }
}

/// A run of `n` backslashes.
pub open spec fn bs_seq(n: nat) -> Seq<u16> {
    Seq::new(n, |i: int| BACKSLASH)
}

/// The leading run is exactly the longest backslash prefix.
pub proof fn lemma_bs_run_facts(s: Seq<u16>)
    ensures
        bs_run(s) <= s.len(),
        forall|i: int| 0 <= i < bs_run(s) ==> s[i] == BACKSLASH,
        bs_run(s) < s.len() ==> s[bs_run(s) as int] != BACKSLASH,
    decreases s.len(),
{
    if s.len() > 0 && s[0] == BACKSLASH {
        lemma_bs_run_facts(s.drop_first());
        assert(bs_run(s) == 1 + bs_run(s.drop_first()));
        assert forall|i: int| 0 <= i < bs_run(s) implies s[i] == BACKSLASH by {
            if i > 0 {
                assert(s.drop_first()[i - 1] == s[i]);
            }
        }
        if bs_run(s) < s.len() {
            assert(s.drop_first()[bs_run(s.drop_first()) as int] == s[bs_run(s) as int]);
        }
    }
}

/// A sequence that holds `k` backslashes and then something else (or ends)
/// has a leading run of exactly `k`.
pub proof fn lemma_bs_run_exact(s: Seq<u16>, k: nat)
    requires
        k <= s.len(),
        forall|i: int| 0 <= i < k ==> s[i] == BACKSLASH,
        k < s.len() ==> s[k as int] != BACKSLASH,
    ensures
        bs_run(s) == k,
    decreases k,
{
    if k == 0 {
    } else {
        assert(s[0] == BACKSLASH);
        assert(forall|i: int| 0 <= i < k - 1 ==> s.drop_first()[i] == s[i + 1]);
        lemma_bs_run_exact(s.drop_first(), (k - 1) as nat);
    }
}

/// The body of a quoted token: runs of backslashes right before a literal
/// quote are doubled and one more backslash escapes the quote; the run at
/// the very end — right before the closing quote — is doubled; everything
/// else is copied as it stands.
pub open spec fn qbody(s: Seq<u16>) -> Seq<u16>
    decreases s.len(),
{
    let n = bs_run(s);
    if s.len() == 0 {
        Seq::empty()
    } else if n >= s.len() {
        bs_seq(2 * n)
    } else if s[n as int] == QUOTE {
        bs_seq(2 * n + 1) + seq![QUOTE] + qbody(s.skip(n as int + 1))
    } else {
        bs_seq(n) + seq![s[n as int]] + qbody(s.skip(n as int + 1))
    }
}

/// A whole quoted token.
pub open spec fn quoted(arg: Seq<u16>) -> Seq<u16> {
    seq![QUOTE] + qbody(arg) + seq![QUOTE]
}

/// The tokens after the program name: each preceded by one space, quoted.
pub open spec fn tail_args(args: Seq<Seq<u16>>) -> Seq<u16>
    decreases args.len(),
{
    if args.len() == 0 {
        Seq::empty()
    } else {
        seq![SPACE] + quoted(args[0]) + tail_args(args.drop_first())
    }
}

/// The full command line: the quoted program, then each argument quoted
/// after a space.
pub open spec fn cmdline(prog: Seq<u16>, args: Seq<Seq<u16>>) -> Seq<u16> {
    quoted(prog) + tail_args(args)
}

/// Appending one more argument appends one more quoted token.
pub proof fn lemma_tail_args_snoc(args: Seq<Seq<u16>>, x: Seq<u16>)
    ensures
        tail_args(args + seq![x]) == tail_args(args) + seq![SPACE] + quoted(x),
    decreases args.len(),
{
    if args.len() == 0 {
        assert((args + seq![x])[0] == x);
        assert((args + seq![x]).drop_first() =~= Seq::<Seq<u16>>::empty());
        assert(tail_args(Seq::<Seq<u16>>::empty()) =~= Seq::<u16>::empty());
        assert(tail_args(args + seq![x]) =~= tail_args(args) + seq![SPACE] + quoted(x));
    } else {
        assert((args + seq![x])[0] == args[0]);
        assert((args + seq![x]).drop_first() =~= args.drop_first() + seq![x]);
        lemma_tail_args_snoc(args.drop_first(), x);
        assert(tail_args(args + seq![x]) =~= tail_args(args) + seq![SPACE] + quoted(x));
    }
}

/// Splitting one quoted token, by the target's convention, starting just
/// after the opening quote with the token text gathered so far: `2n`
/// backslashes before a quote collapse to `n` and the quote closes the
/// token; `2n + 1` backslashes before a quote collapse to `n` and escape
/// it; backslashes not before a quote, and all other code units, stand for
/// themselves. The result is the finished token and what follows the
/// closing quote; an unterminated token has no result.
pub open spec fn parse_quoted(s: Seq<u16>, cur: Seq<u16>) -> Option<(Seq<u16>, Seq<u16>)>
    decreases s.len(),
{
    if s.len() == 0 {
        None
    } else if s[0] == BACKSLASH {
        let n = bs_run(s);
        if n >= s.len() {
            None
        } else if s[n as int] == QUOTE {
            if n % 2 == 1 {
                parse_quoted(s.skip(n as int + 1), cur + bs_seq(n / 2) + seq![QUOTE])
            } else {
                Some((cur + bs_seq(n / 2), s.skip(n as int + 1)))
            }
        } else {
            parse_quoted(s.skip(n as int + 1), cur + bs_seq(n) + seq![s[n as int]])
        }
    } else if s[0] == QUOTE {
        Some((cur, s.skip(1)))
    } else {
        parse_quoted(s.skip(1), cur + seq![s[0]])
    }
}

/// Splitting a finished token consumes at least its closing quote.
proof fn lemma_parse_quoted_shrinks(s: Seq<u16>, cur: Seq<u16>)
    ensures
        parse_quoted(s, cur) matches Some(tr) ==> tr.1.len() < s.len(),
    decreases s.len(),
{
    if s.len() == 0 {
    } else if s[0] == BACKSLASH {
        let n = bs_run(s);
        if n >= s.len() {
        } else if s[n as int] == QUOTE {
            if n % 2 == 1 {
                lemma_parse_quoted_shrinks(s.skip(n as int + 1), cur + bs_seq(n / 2)
                    + seq![QUOTE]);
            }
        } else {
            lemma_parse_quoted_shrinks(s.skip(n as int + 1), cur + bs_seq(n) + seq![s[n as int]]);
        }
    } else if s[0] == QUOTE {
    } else {
        lemma_parse_quoted_shrinks(s.skip(1), cur + seq![s[0]]);
    }
}

/// Splitting a command line into its tokens, by the target's convention on
/// the lines this scheme emits: the line opens with a quoted token, and
/// after each token's closing quote either the line ends or a single space
/// opens the next quoted token.
pub open spec fn parse_args(s: Seq<u16>) -> Option<Seq<Seq<u16>>>
    decreases s.len(),
    via parse_args_decreases
{
    if s.len() == 0 || s[0] != QUOTE {
        None
    } else {
        match parse_quoted(s.skip(1), Seq::empty()) {
            Option::None => None,
            Option::Some((tok, rest)) => {
                if rest.len() == 0 {
                    Some(seq![tok])
                } else if rest[0] == SPACE {
                    match parse_args(rest.skip(1)) {
                        Option::None => None,
                        Option::Some(toks) => Some(seq![tok] + toks),
                    }
                } else {
                    None
                }
            },
        }
    }
}

#[via_fn]
proof fn parse_args_decreases(s: Seq<u16>) {
    if s.len() > 0 && s[0] == QUOTE {
        lemma_parse_quoted_shrinks(s.skip(1), Seq::empty());
    }
}

/// Reading a quoted body back: the parser recovers the token exactly and
/// stops right after the closing quote.
proof fn lemma_parse_quoted_qbody(arg: Seq<u16>, rest: Seq<u16>, cur: Seq<u16>)
    ensures
        parse_quoted(qbody(arg) + seq![QUOTE] + rest, cur) == Some((cur + arg, rest)),
    decreases arg.len(),
{
    let s = qbody(arg) + seq![QUOTE] + rest;
    let n = bs_run(arg);
    lemma_bs_run_facts(arg);
    if arg.len() == 0 {
        assert(s[0] == QUOTE);
        assert(s.skip(1) =~= rest);
        assert(cur + arg =~= cur);
    } else if n >= arg.len() {
        assert(qbody(arg) == bs_seq(2 * n));
        assert(forall|i: int| 0 <= i < 2 * n ==> s[i] == BACKSLASH);
        assert(s[2 * n as int] == QUOTE);
        lemma_bs_run_exact(s, 2 * n);
        assert(s[0] == BACKSLASH);
        assert((2 * n) % 2 == 0 && (2 * n) / 2 == n);
        assert(s.skip(2 * n as int + 1) =~= rest);
        assert(arg =~= bs_seq(n));
        assert(cur + bs_seq(n) =~= cur + arg);
    } else if arg[n as int] == QUOTE {
        assert(qbody(arg) == bs_seq(2 * n + 1) + seq![QUOTE] + qbody(arg.skip(n as int + 1)));
        assert(forall|i: int| 0 <= i < 2 * n + 1 ==> s[i] == BACKSLASH);
        assert(s[2 * n as int + 1] == QUOTE);
        lemma_bs_run_exact(s, 2 * n + 1);
        assert(s[0] == BACKSLASH);
        assert((2 * n + 1) % 2 == 1 && (2 * n + 1) / 2 == n);
        assert(s.skip(2 * n as int + 2) =~= qbody(arg.skip(n as int + 1)) + seq![QUOTE] + rest);
        lemma_parse_quoted_qbody(arg.skip(n as int + 1), rest, cur + bs_seq(n) + seq![QUOTE]);
        assert(cur + bs_seq(n) + seq![QUOTE] + arg.skip(n as int + 1) =~= cur + arg);
    } else {
        let c = arg[n as int];
        assert(qbody(arg) == bs_seq(n) + seq![c] + qbody(arg.skip(n as int + 1)));
        assert(s.skip(n as int + 1) =~= qbody(arg.skip(n as int + 1)) + seq![QUOTE] + rest);
        lemma_parse_quoted_qbody(arg.skip(n as int + 1), rest, cur + bs_seq(n) + seq![c]);
        assert(cur + bs_seq(n) + seq![c] + arg.skip(n as int + 1) =~= cur + arg);
        if n == 0 {
            assert(s[0] == c);
            assert(cur + bs_seq(0) + seq![c] =~= cur + seq![c]);
        } else {
            assert(forall|i: int| 0 <= i < n ==> s[i] == BACKSLASH);
            assert(s[n as int] == c);
            lemma_bs_run_exact(s, n);
            assert(s[0] == BACKSLASH);
        }
    }
}

/// Splitting a line of quoted tokens recovers each token in order.
proof fn lemma_parse_args_all(first: Seq<u16>, more: Seq<Seq<u16>>)
    ensures
        parse_args(quoted(first) + tail_args(more)) == Some(seq![first] + more),
    decreases more.len(),
{
    let s = quoted(first) + tail_args(more);
    assert(s[0] == QUOTE);
    assert(s.skip(1) =~= qbody(first) + seq![QUOTE] + tail_args(more));
    lemma_parse_quoted_qbody(first, tail_args(more), Seq::empty());
    assert(Seq::<u16>::empty() + first =~= first);
    if more.len() == 0 {
        assert(tail_args(more).len() == 0);
        assert(seq![first] + more =~= seq![first]);
    } else {
        let rest = tail_args(more);
        assert(rest == seq![SPACE] + quoted(more[0]) + tail_args(more.drop_first()));
        assert(rest[0] == SPACE);
        assert(rest.skip(1) =~= quoted(more[0]) + tail_args(more.drop_first()));
        lemma_parse_args_all(more[0], more.drop_first());
        assert(seq![first] + more =~= seq![first] + (seq![more[0]] + more.drop_first()));
    }
}

/// The round trip of the quoting scheme: for every program and argument
/// list, splitting the emitted command line back into tokens — by the
/// target's convention — recovers exactly the program and the arguments.
pub proof fn lemma_command_line_round_trip(prog: Seq<u16>, args: Seq<Seq<u16>>)
    ensures
        parse_args(cmdline(prog, args)) == Some(seq![prog] + args),
{
    lemma_parse_args_all(prog, args);
}

/// Appends `k` copies of `c`.
fn push_copies(out: &mut Vec<u16>, c: u16, k: usize)
    ensures
        final(out)@ == old(out)@ + Seq::new(k as nat, |i: int| c),
{
    let mut i: usize = 0;
    while i < k
        invariant
            i <= k,
            out@ == old(out)@ + Seq::new(i as nat, |j: int| c),
        decreases k - i,
    {
        out.push(c);
        assert(out@ =~= old(out)@ + Seq::new((i + 1) as nat, |j: int| c));
        i = i + 1;
    }
    assert(final(out)@ =~= old(out)@ + Seq::new(k as nat, |i: int| c));
}

/// Appends one token, quoted.
fn append_arg(cmd: &mut Vec<u16>, arg: &Vec<u16>)
    ensures
        final(cmd)@ == old(cmd)@ + quoted(arg@),
{
    cmd.push(QUOTE);
    let ghost base = old(cmd)@ + seq![QUOTE];
    let mut i: usize = 0;
    proof {
        assert(arg@.skip(0) =~= arg@);
        assert(cmd@.skip(base.len() as int) =~= Seq::<u16>::empty());
        assert(cmd@.subrange(0, base.len() as int) =~= base);
    }
    while i < arg.len()
        invariant
            i <= arg@.len(),
            base == old(cmd)@ + seq![QUOTE],
            cmd@.len() >= base.len(),
            cmd@.subrange(0, base.len() as int) == base,
            qbody(arg@) == cmd@.skip(base.len() as int) + qbody(arg@.skip(i as int)),
        decreases arg@.len() - i,
    {
        let ghost pre = cmd@;
        let ghost t = arg@.skip(i as int);
        let mut j: usize = i;
        while j < arg.len() && arg[j] == BACKSLASH
            invariant
                i <= j <= arg@.len(),
                forall|k: int| i <= k < j ==> arg@[k] == BACKSLASH,
            decreases arg@.len() - j,
        {
            j = j + 1;
        }
        let n = j - i;
        proof {
            assert(forall|k: int| 0 <= k < n ==> t[k] == arg@[i + k]);
            assert(j < arg@.len() ==> t[n as int] == arg@[j as int]);
            lemma_bs_run_exact(t, n as nat);
        }
        if j == arg.len() {
            push_copies(cmd, BACKSLASH, n);
            push_copies(cmd, BACKSLASH, n);
            proof {
                assert(qbody(t) =~= bs_seq(2 * n as nat));
                assert(cmd@ =~= pre + bs_seq(2 * n as nat));
                assert(arg@.skip(j as int) =~= Seq::<u16>::empty());
                assert(qbody(arg@.skip(j as int)) =~= Seq::<u16>::empty());
                assert(cmd@.skip(base.len() as int) =~= pre.skip(base.len() as int) + bs_seq(
                    2 * n as nat));
                assert(cmd@.subrange(0, base.len() as int) =~= base);
                assert(qbody(arg@) == cmd@.skip(base.len() as int) + qbody(arg@.skip(j as int)));
            }
            i = j;
        } else if arg[j] == QUOTE {
            push_copies(cmd, BACKSLASH, n);
            push_copies(cmd, BACKSLASH, n);
            cmd.push(BACKSLASH);
            cmd.push(QUOTE);
            proof {
                assert(qbody(t) == bs_seq(2 * n as nat + 1) + seq![QUOTE] + qbody(t.skip(n + 1)));
                assert(t.skip(n + 1) =~= arg@.skip(j + 1));
                assert(cmd@ =~= pre + (bs_seq(2 * n as nat + 1) + seq![QUOTE]));
                assert(cmd@.skip(base.len() as int) =~= pre.skip(base.len() as int) + (bs_seq(
                    2 * n as nat + 1) + seq![QUOTE]));
                assert(cmd@.subrange(0, base.len() as int) =~= base);
                assert(qbody(arg@) == cmd@.skip(base.len() as int) + qbody(arg@.skip(j + 1)));
            }
            i = j + 1;
        } else {
            push_copies(cmd, BACKSLASH, n);
            cmd.push(arg[j]);
            proof {
                assert(qbody(t) == bs_seq(n as nat) + seq![t[n as int]] + qbody(t.skip(n + 1)));
                assert(t.skip(n + 1) =~= arg@.skip(j + 1));
                assert(cmd@ =~= pre + (bs_seq(n as nat) + seq![arg@[j as int]]));
                assert(cmd@.skip(base.len() as int) =~= pre.skip(base.len() as int) + (bs_seq(
                    n as nat) + seq![arg@[j as int]]));
                assert(cmd@.subrange(0, base.len() as int) =~= base);
                assert(qbody(arg@) == cmd@.skip(base.len() as int) + qbody(arg@.skip(j + 1)));
            }
            i = j + 1;
        }
    }
    proof {
        assert(arg@.skip(arg@.len() as int) =~= Seq::<u16>::empty());
        assert(qbody(Seq::<u16>::empty()) =~= Seq::<u16>::empty());
        assert(qbody(arg@) == cmd@.skip(base.len() as int));
        assert(cmd@ =~= base + qbody(arg@));
    }
    cmd.push(QUOTE);
    assert(final(cmd)@ =~= old(cmd)@ + quoted(arg@));
}

/// Builds the full command line for a program and its arguments, quoted as
/// the scheme demands and terminated by a zero code unit.
pub fn make_command_line(prog: &Vec<u16>, args: &Vec<Vec<u16>>) -> (r: Vec<u16>)
    ensures
        r@ == cmdline(prog@, args.deep_view()) + seq![NUL],
{
    let mut cmd: Vec<u16> = Vec::new();
    append_arg(&mut cmd, prog);
    let mut k: usize = 0;
    proof {
        assert(tail_args(args.deep_view().take(0)) =~= Seq::<u16>::empty());
        assert(cmd@ =~= quoted(prog@) + tail_args(args.deep_view().take(0)));
    }
    while k < args.len()
        invariant
            k <= args@.len(),
            args.deep_view().len() == args@.len(),
            cmd@ == quoted(prog@) + tail_args(args.deep_view().take(k as int)),
        decreases args@.len() - k,
    {
        let ghost pre = cmd@;
        cmd.push(SPACE);
        append_arg(&mut cmd, &args[k]);
        proof {
            let dv = args.deep_view();
            assert(dv[k as int] == args@[k as int]@);
            assert(dv.take(k + 1) =~= dv.take(k as int) + seq![dv[k as int]]);
            lemma_tail_args_snoc(dv.take(k as int), dv[k as int]);
            assert(cmd@ =~= quoted(prog@) + tail_args(dv.take(k + 1)));
        }
        k = k + 1;
    }
    proof {
        assert(args.deep_view().take(args@.len() as int) =~= args.deep_view());
    }
    cmd.push(NUL);
    assert(cmd@ =~= cmdline(prog@, args.deep_view()) + seq![NUL]);
    cmd
}

} // verus!
