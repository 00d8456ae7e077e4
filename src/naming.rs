use vstd::prelude::*;

verus! {

/// Decimal digits of `n`, most significant first, without leading zeros
/// (zero is written as the single digit `0`).
pub open spec fn decimal(n: nat) -> Seq<char>
    decreases n,
{
    if n < 10 {
        seq![digit_char(n)]
    } else {
        decimal(n / 10).push(digit_char(n % 10))
    }
}

/// The ASCII digit for a value below ten.
pub open spec fn digit_char(d: nat) -> char {
    if d == 0 { '0' }
    else if d == 1 { '1' }
    else if d == 2 { '2' }
    else if d == 3 { '3' }
    else if d == 4 { '4' }
    else if d == 5 { '5' }
    else if d == 6 { '6' }
    else if d == 7 { '7' }
    else if d == 8 { '8' }
    else { '9' }
}

/// The prefix shared by every worker thread's name.
pub open spec fn pool_prefix() -> Seq<char> {
    seq!['m', 'y', '-', 'p', 'o', 'o', 'l', '-']
}

fn digit(d: u64) -> (c: char)
    requires
        d < 10,
    ensures
        c == digit_char(d as nat),
{
    if d == 0 { '0' }
    else if d == 1 { '1' }
    else if d == 2 { '2' }
    else if d == 3 { '3' }
    else if d == 4 { '4' }
    else if d == 5 { '5' }
    else if d == 6 { '6' }
    else if d == 7 { '7' }
    else if d == 8 { '8' }
    else { '9' }
}

/// Relies on String::push: the character is appended at the end.
#[verifier::external_body]
fn push_char(s: &mut String, c: char)
    ensures
        final(s)@ == old(s)@.push(c),
{
    s.push(c);
}

/// Name of the worker thread with sequence number `id`: `my-pool-<id>`.
pub fn thread_namer(id: usize) -> (r: String)
    ensures
        r@ == pool_prefix() + decimal(id as nat),
{
    // digits collected least significant first
    let mut rev: Vec<char> = Vec::new();
    let mut n: u64 = id as u64;
    assert(rev@.reverse() =~= Seq::<char>::empty());
    assert(decimal(id as nat) =~= decimal(n as nat) + rev@.reverse());
    loop
        invariant_except_break
            decimal(id as nat) == decimal(n as nat) + rev@.reverse(),
        ensures
            decimal(id as nat) == rev@.reverse(),
        decreases n,
    {
        let d = digit(n % 10);
        let ghost before = rev@;
        rev.push(d);
        assert(rev@.reverse() =~= seq![d] + before.reverse());
        if n < 10 {
            assert(decimal(n as nat) =~= seq![d]);
            assert(decimal(id as nat) =~= rev@.reverse());
            break;
        }
        assert(decimal(n as nat) == decimal((n / 10) as nat).push(d));
        assert(decimal(id as nat) =~= decimal((n / 10) as nat) + rev@.reverse());
        n = n / 10;
    }
    proof {
        reveal_strlit("my-pool-");
    }
    let mut out: String = "my-pool-".to_owned();
    let mut i: usize = rev.len();
    while i > 0
        invariant
            i <= rev@.len(),
            out@ == pool_prefix() + rev@.subrange(i as int, rev@.len() as int).reverse(),
        decreases i,
    {
        i = i - 1;
        let ghost before = out@;
        push_char(&mut out, rev[i]);
        assert(rev@.subrange(i as int, rev@.len() as int).reverse() =~= rev@.subrange(
            i + 1,
            rev@.len() as int,
        ).reverse().push(rev@[i as int]));
        assert(out@ =~= pool_prefix() + rev@.subrange(i as int, rev@.len() as int).reverse());
    }
    assert(rev@.subrange(0, rev@.len() as int) =~= rev@);
    out
}

} // verus!
