//! Identity helpers: the 64-bit content hash behind store file names and
//! the deterministic cross-backend UUID.  The two outside calls are named
//! spec functions of their input alone; the hex rendering is verified.

use vstd::prelude::*;

verus! {

/// The XXH64 hash (seed 0) of the text's UTF-8 bytes, as `twox-hash`
/// computes it.
pub uninterp spec fn xxhash64_of(s: Seq<char>) -> u64;

/// The hyphenated text of the version-5 UUID of `name` in the URL
/// namespace, as the `uuid` crate computes it.
pub uninterp spec fn uuid5_url_of(name: Seq<char>) -> Seq<char>;

/// Relies on `twox_hash::XxHash64` with seed 0 through `std::hash::Hasher`:
/// a pure function of the input bytes.
#[verifier::external_body]
fn xxh64_raw(s: &str) -> (r: u64)
    ensures
        r == xxhash64_of(s@),
{
    let mut hasher = twox_hash::XxHash64::with_seed(0);
    std::hash::Hasher::write(&mut hasher, s.as_bytes());
    std::hash::Hasher::finish(&hasher)
}

/// Relies on `uuid::Uuid::new_v5` in `NAMESPACE_URL` and its hyphenated
/// `to_string`: a pure function of the name, 36 characters long.
#[verifier::external_body]
fn uuid_v5_url_raw(name: &str) -> (r: String)
    ensures
        r@ == uuid5_url_of(name@),
        r@.len() == 36,
{
    uuid::Uuid::new_v5(&uuid::Uuid::NAMESPACE_URL, name.as_bytes()).to_string()
}

/// The character for one hex digit, lower case.
pub open spec fn hex_digit_char(d: int) -> char {
    if d == 0 {
        '0'
    } else if d == 1 {
        '1'
    } else if d == 2 {
        '2'
    } else if d == 3 {
        '3'
    } else if d == 4 {
        '4'
    } else if d == 5 {
        '5'
    } else if d == 6 {
        '6'
    } else if d == 7 {
        '7'
    } else if d == 8 {
        '8'
    } else if d == 9 {
        '9'
    } else if d == 10 {
        'a'
    } else if d == 11 {
        'b'
    } else if d == 12 {
        'c'
    } else if d == 13 {
        'd'
    } else if d == 14 {
        'e'
    } else {
        'f'
    }
}

/// The first eight hex digits of the 16-digit rendering of a 64-bit value.
pub open spec fn hex8_of(h: u64) -> Seq<char> {
    Seq::new(8, |i: int| hex_digit_char(((h >> ((60 - 4 * i) as u64)) & 0xf) as int))
}

pub fn hex_digit(d: u64) -> (c: &'static str)
    requires
        d < 16,
    ensures
        c@ =~= seq![hex_digit_char(d as int)],
{
    if d == 0 {
        proof {
            reveal_strlit("0");
        }
        "0"
    } else if d == 1 {
        proof {
            reveal_strlit("1");
        }
        "1"
    } else if d == 2 {
        proof {
            reveal_strlit("2");
        }
        "2"
    } else if d == 3 {
        proof {
            reveal_strlit("3");
        }
        "3"
    } else if d == 4 {
        proof {
            reveal_strlit("4");
        }
        "4"
    } else if d == 5 {
        proof {
            reveal_strlit("5");
        }
        "5"
    } else if d == 6 {
        proof {
            reveal_strlit("6");
        }
        "6"
    } else if d == 7 {
        proof {
            reveal_strlit("7");
        }
        "7"
    } else if d == 8 {
        proof {
            reveal_strlit("8");
        }
        "8"
    } else if d == 9 {
        proof {
            reveal_strlit("9");
        }
        "9"
    } else if d == 10 {
        proof {
            reveal_strlit("a");
        }
        "a"
    } else if d == 11 {
        proof {
            reveal_strlit("b");
        }
        "b"
    } else if d == 12 {
        proof {
            reveal_strlit("c");
        }
        "c"
    } else if d == 13 {
        proof {
            reveal_strlit("d");
        }
        "d"
    } else if d == 14 {
        proof {
            reveal_strlit("e");
        }
        "e"
    } else {
        proof {
            reveal_strlit("f");
        }
        "f"
    }
}

/// What [`short_hash`] returns for a given text.
pub open spec fn short_hash_of(s: Seq<char>) -> Seq<char> {
    hex8_of(xxhash64_of(s))
}

/// The eight-hex-digit content hash that de-collides store file names.
pub fn short_hash(s: &str) -> (r: String)
    ensures
        r@ == short_hash_of(s@),
{
    let h = xxh64_raw(s);
    let mut out = String::new();
    let mut i: usize = 0;
    while i < 8
        invariant
            i <= 8,
            out@.len() == i,
            forall|j: int| 0 <= j < i ==> #[trigger] out@[j] == hex8_of(h)[j],
        decreases 8 - i,
    {
        let shift: u64 = 60 - 4 * (i as u64);
        let d: u64 = (h >> shift) & 0xf;
        proof {
            assert((h >> shift) & 0xf < 16) by (bit_vector);
        }
        out.append(hex_digit(d));
        i = i + 1;
    }
    proof {
        assert(out@ =~= hex8_of(h));
    }
    out
}

/// The deterministic cross-backend native id for a given name string.
pub fn uuid_v5_url(name: &str) -> (r: String)
    ensures
        r@ == uuid5_url_of(name@),
        r@.len() == 36,
{
    uuid_v5_url_raw(name)
}

} // verus!
