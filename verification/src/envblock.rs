//! The environment block and the working-directory string.
//!
//! A child's environment travels as one wide block: for each entry the
//! key, an equals sign, the value and a zero code unit; after the last
//! entry one more zero closes the block. Keys compare case-insensitively,
//! so they are uppercased before they are stored. The working directory
//! travels as a zero-terminated wide string.

use vstd::prelude::*;

verus! {

/// The equals-sign code unit.
pub const EQUALS: u16 = 61;

/// The terminating zero code unit.
pub const WNUL: u16 = 0;

/// ASCII uppercase of one UTF-16 code unit; everything else is unchanged.
pub open spec fn upper_unit(c: u16) -> u16 {
    if 97 <= c <= 122 {
        (c - 32) as u16
    } else {
        c
    }
}

/// A key uppercased unit by unit.
pub open spec fn upper_key(s: Seq<u16>) -> Seq<u16> {
    s.map_values(|c: u16| upper_unit(c))
}

/// Uppercases a key for case-insensitive treatment of the environment.
pub fn make_key(s: &Vec<u16>) -> (r: Vec<u16>)
    ensures
        r@ == upper_key(s@),
{
    let mut out: Vec<u16> = Vec::new();
    let mut i: usize = 0;
    while i < s.len()
        invariant
            i <= s@.len(),
            out@ == upper_key(s@.take(i as int)),
        decreases s@.len() - i,
    {
        let c = s[i];
        if 97 <= c && c <= 122 {
            out.push(c - 32);
        } else {
            out.push(c);
        }
        assert(out@ =~= upper_key(s@.take(i + 1)));
        i = i + 1;
    }
    assert(s@.take(s@.len() as int) =~= s@);
    out
}

/// One environment entry as it stands in the block.
pub open spec fn env_entry(key: Seq<u16>, value: Seq<u16>) -> Seq<u16> {
    key + seq![EQUALS] + value + seq![WNUL]
}

/// The entries of the block, in order.
pub open spec fn env_entries(l: Seq<(Seq<u16>, Seq<u16>)>) -> Seq<u16>
    decreases l.len(),
{
    if l.len() == 0 {
        Seq::empty()
    } else {
        env_entry(l[0].0, l[0].1) + env_entries(l.drop_first())
    }
}

/// The whole block: every entry, then one more zero.
pub open spec fn env_block(l: Seq<(Seq<u16>, Seq<u16>)>) -> Seq<u16> {
    env_entries(l) + seq![WNUL]
}

/// Appending an entry to the list appends its units to the block's entries.
pub proof fn lemma_env_entries_snoc(l: Seq<(Seq<u16>, Seq<u16>)>, e: (Seq<u16>, Seq<u16>))
    ensures
        env_entries(l + seq![e]) == env_entries(l) + env_entry(e.0, e.1),
    decreases l.len(),
{
    if l.len() == 0 {
        assert((l + seq![e])[0] == e);
        assert((l + seq![e]).drop_first() =~= Seq::<(Seq<u16>, Seq<u16>)>::empty());
        assert(env_entries(Seq::<(Seq<u16>, Seq<u16>)>::empty()) =~= Seq::<u16>::empty());
        assert(env_entries(l + seq![e]) =~= env_entries(l) + env_entry(e.0, e.1));
    } else {
        assert((l + seq![e])[0] == l[0]);
        assert((l + seq![e]).drop_first() =~= l.drop_first() + seq![e]);
        lemma_env_entries_snoc(l.drop_first(), e);
        assert(env_entries(l + seq![e]) =~= env_entries(l) + env_entry(e.0, e.1));
    }
}

/// One variable of the child's environment: an uppercased key and a value.
#[derive(Debug, Clone)]
pub struct EnvVar {
    /// The key, already uppercased.
    pub key: Vec<u16>,
    /// The value.
    pub value: Vec<u16>,
}

/// The pairs a list of variables stands for.
pub open spec fn env_pairs(l: Seq<EnvVar>) -> Seq<(Seq<u16>, Seq<u16>)> {
    l.map_values(|e: EnvVar| (e.key@, e.value@))
}

/// Serializes the environment into the double-zero-terminated wide block.
pub fn make_env_block(env: &Vec<EnvVar>) -> (r: Vec<u16>)
    ensures
        r@ == env_block(env_pairs(env@)),
{
    let mut out: Vec<u16> = Vec::new();
    let mut i: usize = 0;
    while i < env.len()
        invariant
            i <= env@.len(),
            out@ == env_entries(env_pairs(env@).take(i as int)),
        decreases env@.len() - i,
    {
        let e = &env[i];
        let mut j: usize = 0;
        let ghost pre = out@;
        while j < e.key.len()
            invariant
                j <= e.key@.len(),
                out@ == pre + e.key@.take(j as int),
            decreases e.key@.len() - j,
        {
            out.push(e.key[j]);
            assert(out@ =~= pre + e.key@.take(j + 1));
            j = j + 1;
        }
        assert(e.key@.take(e.key@.len() as int) =~= e.key@);
        out.push(EQUALS);
        let ghost mid = out@;
        let mut j2: usize = 0;
        while j2 < e.value.len()
            invariant
                j2 <= e.value@.len(),
                out@ == mid + e.value@.take(j2 as int),
            decreases e.value@.len() - j2,
        {
            out.push(e.value[j2]);
            assert(out@ =~= mid + e.value@.take(j2 + 1));
            j2 = j2 + 1;
        }
        assert(e.value@.take(e.value@.len() as int) =~= e.value@);
        out.push(WNUL);
        proof {
            let ps = env_pairs(env@);
            assert(ps[i as int] == (env@[i as int].key@, env@[i as int].value@));
            assert(ps.take(i + 1) =~= ps.take(i as int) + seq![ps[i as int]]);
            lemma_env_entries_snoc(ps.take(i as int), ps[i as int]);
            assert(out@ =~= env_entries(ps.take(i + 1)));
        }
        i = i + 1;
    }
    assert(env_pairs(env@).take(env@.len() as int) =~= env_pairs(env@));
    out.push(WNUL);
    assert(out@ =~= env_block(env_pairs(env@)));
    out
}

/// Serializes a working directory as a zero-terminated wide string.
pub fn make_dir_block(dir: &Vec<u16>) -> (r: Vec<u16>)
    ensures
        r@ == dir@ + seq![WNUL],
{
    let mut out: Vec<u16> = Vec::new();
    let mut i: usize = 0;
    while i < dir.len()
        invariant
            i <= dir@.len(),
            out@ == dir@.take(i as int),
        decreases dir@.len() - i,
    {
        out.push(dir[i]);
        assert(out@ =~= dir@.take(i + 1));
        i = i + 1;
    }
    assert(dir@.take(dir@.len() as int) =~= dir@);
    out.push(WNUL);
    assert(out@ =~= dir@ + seq![WNUL]);
    out
}

} // verus!
