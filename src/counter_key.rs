//! Counter keys: `rate_limiter:<kind>:<hash>`, with the hash in decimal.
use vstd::prelude::*;

verus! {

/// The characters of the decimal digits, in order.
pub open spec fn digit_chars() -> Seq<char> {
    seq!['0', '1', '2', '3', '4', '5', '6', '7', '8', '9']
}

/// The decimal rendering of `n`, without sign or leading zeros.
pub open spec fn decimal(n: nat) -> Seq<char>
    decreases n,
{
    if n < 10 {
        seq![digit_chars()[n as int]]
    } else {
        decimal(n / 10).push(digit_chars()[(n % 10) as int])
    }
}

/// The fixed start of every counter key.
pub open spec fn key_prefix() -> Seq<char> {
    seq!['r', 'a', 't', 'e', '_', 'l', 'i', 'm', 'i', 't', 'e', 'r', ':']
}

/// The counter key of an identity whose hash is `hash`, for a strategy whose
/// kind tag is `kind`.
pub open spec fn counter_key(kind: Seq<char>, hash: u64) -> Seq<char> {
    key_prefix() + kind + seq![':'] + decimal(hash as nat)
}

/// What the standard library's default hasher gives for a string.
pub uninterp spec fn hash_of(s: Seq<char>) -> u64;

/// Relies on `BuildHasher::hash_one` over `BuildHasherDefault<DefaultHasher>`:
/// a hasher built by `DefaultHasher::new` hashes the string and finishes; the
/// result depends on the characters alone.
#[verifier::external_body]
pub(crate) fn hash_identity(s: &String) -> (r: u64)
    ensures
        r == hash_of(s@),
{
    std::hash::BuildHasher::hash_one(
        &std::hash::BuildHasherDefault::<std::hash::DefaultHasher>::default(),
        s,
    )
}

fn digit_str(d: u64) -> (r: &'static str)
    requires
        d < 10,
    ensures
        r@ == seq![digit_chars()[d as int]],
{
    proof {
        reveal_strlit("0");
        reveal_strlit("1");
        reveal_strlit("2");
        reveal_strlit("3");
        reveal_strlit("4");
        reveal_strlit("5");
        reveal_strlit("6");
        reveal_strlit("7");
        reveal_strlit("8");
        reveal_strlit("9");
    }
    let r = match d {
        0 => "0",
        1 => "1",
        2 => "2",
        3 => "3",
        4 => "4",
        5 => "5",
        6 => "6",
        7 => "7",
        8 => "8",
        _ => "9",
    };
    assert(r@ =~= seq![digit_chars()[d as int]]);
    r
}

/// Appends the decimal rendering of `n` to `out`.
pub fn push_decimal(out: &mut String, n: u64)
    ensures
        final(out)@ == old(out)@ + decimal(n as nat),
    decreases n,
{
    let ghost start = out@;
    if n >= 10 {
        push_decimal(out, n / 10);
    }
    let d = digit_str(n % 10);
    out.append(d);
    assert(decimal(n as nat) == if n < 10 {
        seq![digit_chars()[n as int]]
    } else {
        decimal((n / 10) as nat).push(digit_chars()[(n % 10) as int])
    });
    assert(out@ =~= start + decimal(n as nat));
}

/// Builds the counter key `rate_limiter:<kind>:<hash of identity>`.
pub fn make_counter_key(kind: &str, identity: &String) -> (r: String)
    ensures
        r@ == counter_key(kind@, hash_of(identity@)),
{
    let h = hash_identity(identity);
    let mut key = String::from_str("rate_limiter:");
    proof {
        reveal_strlit("rate_limiter:");
        reveal_strlit(":");
    }
    key.append(kind);
    key.append(":");
    push_decimal(&mut key, h);
    assert(key@ =~= counter_key(kind@, h));
    key
}

} // verus!
