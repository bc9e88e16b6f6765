use vstd::prelude::*;

use crate::error::Atrac3Error;

verus! {

/// Sequential composition of two emissions: the second only counts when the
/// first succeeded, and the first error wins.
pub open spec fn then_bits(
    a: Result<Seq<bool>, Atrac3Error>,
    b: Result<Seq<bool>, Atrac3Error>,
) -> Result<Seq<bool>, Atrac3Error> {
    match a {
        Err(e) => Err(e),
        Ok(x) => match b {
            Err(e) => Err(e),
            Ok(y) => Ok(x + y),
        },
    }
}

/// The first failing check over a sequence, in order.
pub open spec fn seq_check<T>(s: Seq<T>, f: spec_fn(T) -> Result<(), Atrac3Error>) -> Result<
    (),
    Atrac3Error,
>
    decreases s.len(),
{
    if s.len() == 0 {
        Ok(())
    } else {
        match seq_check(s.drop_last(), f) {
            Err(e) => Err(e),
            Ok(_) => f(s.last()),
        }
    }
}

/// Concatenation of per-item bit strings, in order.
pub open spec fn seq_bits<T>(s: Seq<T>, f: spec_fn(T) -> Seq<bool>) -> Seq<bool>
    decreases s.len(),
{
    if s.len() == 0 {
        Seq::empty()
    } else {
        seq_bits(s.drop_last(), f) + f(s.last())
    }
}

/// Concatenation of per-item emissions, stopping at the first error.
pub open spec fn seq_enc<T>(s: Seq<T>, f: spec_fn(T) -> Result<Seq<bool>, Atrac3Error>) -> Result<
    Seq<bool>,
    Atrac3Error,
>
    decreases s.len(),
{
    if s.len() == 0 {
        Ok(Seq::empty())
    } else {
        then_bits(seq_enc(s.drop_last(), f), f(s.last()))
    }
}

/// Sum of a per-item measure.
pub open spec fn seq_sum<T>(s: Seq<T>, f: spec_fn(T) -> nat) -> nat
    decreases s.len(),
{
    if s.len() == 0 {
        0
    } else {
        seq_sum(s.drop_last(), f) + f(s.last())
    }
}

/// `emitted` is what a writer holding `before` holds after the emission
/// `enc` was attempted and reported `r`: on success exactly the emitted bits
/// were appended, on failure the same error is reported and the writer was
/// only appended to.
pub open spec fn wrote(
    before: Seq<bool>,
    after: Seq<bool>,
    r: Result<(), Atrac3Error>,
    enc: Result<Seq<bool>, Atrac3Error>,
) -> bool {
    match enc {
        Ok(b) => r is Ok && after == before + b,
        Err(e) => r == Err::<(), Atrac3Error>(e) && before.is_prefix_of(after),
    }
}

pub proof fn lemma_take_last<T>(s: Seq<T>, i: int)
    requires
        0 <= i < s.len(),
    ensures
        s.take(i + 1).drop_last() == s.take(i),
        s.take(i + 1).last() == s[i],
{
    assert(s.take(i + 1).drop_last() =~= s.take(i));
}

pub proof fn lemma_take_all<T>(s: Seq<T>)
    ensures
        s.take(s.len() as int) == s,
{
    assert(s.take(s.len() as int) =~= s);
}

/// A passing check over a sequence passes on each of its items.
pub proof fn lemma_seq_check_each<T>(s: Seq<T>, f: spec_fn(T) -> Result<(), Atrac3Error>, i: int)
    requires
        seq_check(s, f) is Ok,
        0 <= i < s.len(),
    ensures
        f(s[i]) is Ok,
    decreases s.len(),
{
    if i < s.len() - 1 {
        lemma_seq_check_each(s.drop_last(), f, i);
    }
}

/// A check over a prefix that reached item `i` passes on the prefix.
pub proof fn lemma_seq_check_prefix<T>(
    s: Seq<T>,
    f: spec_fn(T) -> Result<(), Atrac3Error>,
    i: int,
)
    requires
        seq_check(s, f) is Ok,
        0 <= i <= s.len(),
    ensures
        seq_check(s.take(i), f) is Ok,
    decreases s.len(),
{
    if i == s.len() {
        lemma_take_all(s);
    } else {
        lemma_seq_check_prefix(s.drop_last(), f, i);
        assert(s.drop_last().take(i) =~= s.take(i));
    }
}

/// A sum over a prefix is at most the sum over the whole sequence.
pub proof fn lemma_seq_sum_prefix<T>(s: Seq<T>, f: spec_fn(T) -> nat, i: int)
    requires
        0 <= i <= s.len(),
    ensures
        seq_sum(s.take(i), f) <= seq_sum(s, f),
    decreases s.len(),
{
    if i == s.len() {
        lemma_take_all(s);
    } else {
        lemma_seq_sum_prefix(s.drop_last(), f, i);
        assert(s.drop_last().take(i) =~= s.take(i));
    }
}

/// Each item's measure is bounded by the sum.
pub proof fn lemma_seq_sum_each<T>(s: Seq<T>, f: spec_fn(T) -> nat, i: int)
    requires
        0 <= i < s.len(),
    ensures
        f(s[i]) <= seq_sum(s, f),
    decreases s.len(),
{
    if i < s.len() - 1 {
        lemma_seq_sum_each(s.drop_last(), f, i);
    }
}

/// An emission that succeeds is no longer than the sum of per-item bounds
/// when each item's successful emission is within its bound.
pub proof fn lemma_seq_enc_len<T>(
    s: Seq<T>,
    f: spec_fn(T) -> Result<Seq<bool>, Atrac3Error>,
    g: spec_fn(T) -> nat,
)
    requires
        seq_enc(s, f) is Ok,
        forall|i: int|
            0 <= i < s.len() ==> (#[trigger] f(s[i]) matches Ok(b) ==> b.len() <= g(s[i])),
    ensures
        seq_enc(s, f)->Ok_0.len() <= seq_sum(s, g),
    decreases s.len(),
{
    if s.len() > 0 {
        assert forall|i: int| 0 <= i < s.drop_last().len() implies (#[trigger] f(
            s.drop_last()[i],
        ) matches Ok(b) ==> b.len() <= g(s.drop_last()[i])) by {
            assert(s.drop_last()[i] == s[i]);
        }
        lemma_seq_enc_len(s.drop_last(), f, g);
        assert(f(s[s.len() - 1]) matches Ok(b) ==> b.len() <= g(s[s.len() - 1]));
    }
}

/// A successful emission has exactly the summed length when each item's
/// successful emission has exactly its measure.
pub proof fn lemma_seq_enc_len_eq<T>(
    s: Seq<T>,
    f: spec_fn(T) -> Result<Seq<bool>, Atrac3Error>,
    g: spec_fn(T) -> nat,
)
    requires
        forall|i: int|
            0 <= i < s.len() ==> (#[trigger] f(s[i]) matches Ok(b) ==> b.len() == g(s[i])),
    ensures
        seq_enc(s, f) matches Ok(b) ==> b.len() == seq_sum(s, g),
    decreases s.len(),
{
    if s.len() > 0 {
        assert forall|i: int| 0 <= i < s.drop_last().len() implies (#[trigger] f(
            s.drop_last()[i],
        ) matches Ok(b) ==> b.len() == g(s.drop_last()[i])) by {
            assert(s.drop_last()[i] == s[i]);
        }
        lemma_seq_enc_len_eq(s.drop_last(), f, g);
        assert(f(s[s.len() - 1]) matches Ok(b) ==> b.len() == g(s[s.len() - 1]));
    }
}

/// Concatenated bit strings have the summed length.
pub proof fn lemma_seq_bits_len<T>(s: Seq<T>, f: spec_fn(T) -> Seq<bool>, g: spec_fn(T) -> nat)
    requires
        forall|i: int| 0 <= i < s.len() ==> (#[trigger] f(s[i])).len() == g(s[i]),
    ensures
        seq_bits(s, f).len() == seq_sum(s, g),
    decreases s.len(),
{
    if s.len() > 0 {
        assert forall|i: int| 0 <= i < s.drop_last().len() implies (#[trigger] f(
            s.drop_last()[i],
        )).len() == g(s.drop_last()[i]) by {
            assert(s.drop_last()[i] == s[i]);
        }
        lemma_seq_bits_len(s.drop_last(), f, g);
        assert(f(s[s.len() - 1]).len() == g(s[s.len() - 1]));
    }
}

/// A successful emission succeeds on every prefix too.
pub proof fn lemma_seq_enc_prefix_ok<T>(
    s: Seq<T>,
    f: spec_fn(T) -> Result<Seq<bool>, Atrac3Error>,
    i: int,
)
    requires
        seq_enc(s, f) is Ok,
        0 <= i <= s.len(),
    ensures
        seq_enc(s.take(i), f) is Ok,
    decreases s.len(),
{
    if i == s.len() {
        lemma_take_all(s);
    } else {
        lemma_seq_enc_prefix_ok(s.drop_last(), f, i);
        assert(s.drop_last().take(i) =~= s.take(i));
    }
}


/// Applies a fallible per-item map, stopping at the first error.
pub open spec fn seq_map_res<T, U>(s: Seq<T>, f: spec_fn(T) -> Result<U, Atrac3Error>) -> Result<
    Seq<U>,
    Atrac3Error,
>
    decreases s.len(),
{
    if s.len() == 0 {
        Ok(Seq::empty())
    } else {
        match seq_map_res(s.drop_last(), f) {
            Err(e) => Err(e),
            Ok(us) => match f(s.last()) {
                Err(e) => Err(e),
                Ok(u) => Ok(us.push(u)),
            },
        }
    }
}

/// If a fallible map failed at item `i` after the items before succeeded,
/// the whole map reports that item's error.
pub proof fn lemma_seq_map_res_first_err<T, U>(
    s: Seq<T>,
    f: spec_fn(T) -> Result<U, Atrac3Error>,
    i: int,
)
    requires
        0 <= i < s.len(),
        seq_map_res(s.take(i), f) is Ok,
        f(s[i]) is Err,
    ensures
        seq_map_res(s, f) == Err::<Seq<U>, Atrac3Error>(f(s[i])->Err_0),
    decreases s.len(),
{
    lemma_take_last(s, i);
    if i < s.len() - 1 {
        assert(s.drop_last().take(i) =~= s.take(i));
        lemma_seq_map_res_first_err(s.drop_last(), f, i);
    } else {
        assert(s.drop_last() =~= s.take(i));
    }
}

/// A successful fallible map has one result per item.
pub proof fn lemma_seq_map_res_len<T, U>(s: Seq<T>, f: spec_fn(T) -> Result<U, Atrac3Error>)
    ensures
        seq_map_res(s, f) matches Ok(us) ==> us.len() == s.len(),
    decreases s.len(),
{
    if s.len() > 0 {
        lemma_seq_map_res_len(s.drop_last(), f);
    }
}

} // verus!
