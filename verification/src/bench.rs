//! The pure parts of the load benchmark: the names and contents of the files
//! that each simulated client sends, and the total of the measured times.
use vstd::prelude::*;
use crate::text::{decimal, push_decimal};

verus! {

/// The name of the file that simulated client `id` uploads, fetches and
/// deletes: `arq{id}.txt`.
pub open spec fn benchmark_name(id: nat) -> Seq<char> {
    "arq"@ + decimal(id) + ".txt"@
}

/// The name of the file that simulated client `id` works on.
pub fn benchmark_file_name(id: u64) -> (r: String)
    ensures
        r@ == benchmark_name(id as nat),
{
    let mut r = String::new();
    r.append("arq");
    push_decimal(&mut r, id);
    r.append(".txt");
    r
}

/// ASCII letters and digits, the alphabet of the benchmark payloads.
pub open spec fn is_ascii_alphanumeric(c: char) -> bool {
    ||| 'A' <= c <= 'Z'
    ||| 'a' <= c <= 'z'
    ||| '0' <= c <= '9'
}

/// Calls `Alphanumeric.sample_string` of `rand` with the thread's random
/// generator. As the rand source shows, the string has `len` characters,
/// each drawn from the ASCII letters and digits; which ones is left to chance
/// and not stated. The thread generator panics only where the operating
/// system gives it no seed.
#[verifier::external_body]
fn random_alphanumeric(len: usize) -> (s: String)
    ensures
        s@.len() == len,
        forall|i: int| 0 <= i < len ==> is_ascii_alphanumeric(#[trigger] s@[i]),
{
    rand::distributions::DistString::sample_string(
        &rand::distributions::Alphanumeric,
        &mut rand::thread_rng(),
        len,
    )
}

/// The number of characters in each benchmark payload: 64 * 64 * 64.
pub const PAYLOAD_LEN: usize = 262144;

/// A fresh random payload of [`PAYLOAD_LEN`] ASCII letters and digits.
pub fn benchmark_payload() -> (s: String)
    ensures
        s@.len() == PAYLOAD_LEN,
        forall|i: int| 0 <= i < PAYLOAD_LEN ==> is_ascii_alphanumeric(#[trigger] s@[i]),
{
    random_alphanumeric(PAYLOAD_LEN)
}

/// The sum of a sequence of measurements.
pub open spec fn total(s: Seq<u128>) -> int
    decreases s.len(),
{
    if s.len() == 0 {
        0
    } else {
        total(s.drop_last()) + s.last()
    }
}

proof fn lemma_total_prefix(s: Seq<u128>, i: int)
    requires
        0 <= i <= s.len(),
    ensures
        total(s.take(i)) <= total(s),
    decreases s.len() - i,
{
    if i < s.len() {
        lemma_total_prefix(s, i + 1);
        assert(s.take(i + 1).drop_last() =~= s.take(i));
    } else {
        assert(s.take(i) =~= s);
    }
}

/// The sum of the measured times, or `None` where it does not fit in a `u128`.
pub fn total_millis(samples: &[u128]) -> (r: Option<u128>)
    ensures
        r is Some <==> total(samples@) <= u128::MAX,
        r matches Some(t) ==> t == total(samples@),
{
    let mut acc: u128 = 0;
    let mut i: usize = 0;
    assert(samples@.take(0) =~= Seq::<u128>::empty());
    while i < samples.len()
        invariant
            0 <= i <= samples.len(),
            acc == total(samples@.take(i as int)),
        decreases samples.len() - i,
    {
        assert(samples@.take(i + 1).drop_last() =~= samples@.take(i as int));
        match acc.checked_add(samples[i]) {
            Some(t) => {
                acc = t;
            },
            None => {
                proof {
                    lemma_total_prefix(samples@, i + 1);
                }
                return None;
            },
        }
        i = i + 1;
    }
    assert(samples@.take(samples@.len() as int) =~= samples@);
    Some(acc)
}

/// The total is the plain sum of the measurements: nothing for none, and
/// each further measurement adds exactly its value, whatever came before it.
pub proof fn lemma_total_is_sum(s: Seq<u128>, x: u128)
    ensures
        total(Seq::<u128>::empty()) == 0,
        total(s.push(x)) == total(s) + x,
        total(seq![x]) == x,
        total(seq![x, x]) == 2 * x,
{
    assert(s.push(x).drop_last() =~= s);
    let e = Seq::<u128>::empty();
    assert(seq![x] =~= e.push(x));
    assert(e.push(x).drop_last() =~= e);
    assert(total(e) == 0);
    assert(seq![x].last() == x);
    assert(total(seq![x]) == total(seq![x].drop_last()) + seq![x].last());
    assert(total(seq![x]) == x);
    assert(seq![x, x] =~= seq![x].push(x));
    assert(seq![x].push(x).drop_last() =~= seq![x]);
}

/// The total of two runs of measurements taken one after the other is the
/// sum of their totals.
pub proof fn lemma_total_concat(a: Seq<u128>, b: Seq<u128>)
    ensures
        total(a + b) == total(a) + total(b),
    decreases b.len(),
{
    if b.len() == 0 {
        assert(a + b =~= a);
    } else {
        lemma_total_concat(a, b.drop_last());
        assert((a + b).drop_last() =~= a + b.drop_last());
        lemma_total_is_sum(b.drop_last(), b.last());
        assert(b.drop_last().push(b.last()) =~= b);
    }
}

} // verus!
