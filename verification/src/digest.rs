//! Content digests for unauthorized-library reports: SHA-256 through the
//! `sha2` crate, rendered as lowercase hexadecimal.

use vstd::prelude::*;
use sha2::Digest;

verus! {

/// The SHA-256 digest of a byte sequence, as the `sha2` crate computes it:
/// a function of the input bytes alone.
pub uninterp spec fn sha256_of(bytes: Seq<u8>) -> Seq<u8>;

/// A nibble as a lowercase hexadecimal character.
pub open spec fn hex_digit(n: u8) -> char {
    if n == 0 {
        '0'
    } else if n == 1 {
        '1'
    } else if n == 2 {
        '2'
    } else if n == 3 {
        '3'
    } else if n == 4 {
        '4'
    } else if n == 5 {
        '5'
    } else if n == 6 {
        '6'
    } else if n == 7 {
        '7'
    } else if n == 8 {
        '8'
    } else if n == 9 {
        '9'
    } else if n == 10 {
        'a'
    } else if n == 11 {
        'b'
    } else if n == 12 {
        'c'
    } else if n == 13 {
        'd'
    } else if n == 14 {
        'e'
    } else {
        'f'
    }
}

/// Bytes as lowercase hexadecimal, two digits per byte, high nibble first.
pub open spec fn hex_of(b: Seq<u8>) -> Seq<char> {
    Seq::new(
        2 * b.len(),
        |i: int|
            if i % 2 == 0 {
                hex_digit((b[i / 2] / 16) as u8)
            } else {
                hex_digit((b[i / 2] % 16) as u8)
            },
    )
}

/// Relies on `sha2::Sha256::digest`: computes the SHA-256 digest of the
/// input, 32 bytes, determined by the input bytes alone.
#[verifier::external_body]
fn sha256_digest(bytes: &[u8]) -> (r: Vec<u8>)
    ensures
        r@ == sha256_of(bytes@),
        r@.len() == 32,
{
    sha2::Sha256::digest(bytes).to_vec()
}

/// One nibble rendered as a lowercase hexadecimal digit.
fn hex_digit_str(n: u8) -> (r: &'static str)
    requires
        n < 16,
    ensures
        r@ == seq![hex_digit(n)],
{
    if n == 0 {
        proof {
            reveal_strlit("0");
            assert("0"@ =~= seq![hex_digit(0)]);
        }
        "0"
    } else if n == 1 {
        proof {
            reveal_strlit("1");
            assert("1"@ =~= seq![hex_digit(1)]);
        }
        "1"
    } else if n == 2 {
        proof {
            reveal_strlit("2");
            assert("2"@ =~= seq![hex_digit(2)]);
        }
        "2"
    } else if n == 3 {
        proof {
            reveal_strlit("3");
            assert("3"@ =~= seq![hex_digit(3)]);
        }
        "3"
    } else if n == 4 {
        proof {
            reveal_strlit("4");
            assert("4"@ =~= seq![hex_digit(4)]);
        }
        "4"
    } else if n == 5 {
        proof {
            reveal_strlit("5");
            assert("5"@ =~= seq![hex_digit(5)]);
        }
        "5"
    } else if n == 6 {
        proof {
            reveal_strlit("6");
            assert("6"@ =~= seq![hex_digit(6)]);
        }
        "6"
    } else if n == 7 {
        proof {
            reveal_strlit("7");
            assert("7"@ =~= seq![hex_digit(7)]);
        }
        "7"
    } else if n == 8 {
        proof {
            reveal_strlit("8");
            assert("8"@ =~= seq![hex_digit(8)]);
        }
        "8"
    } else if n == 9 {
        proof {
            reveal_strlit("9");
            assert("9"@ =~= seq![hex_digit(9)]);
        }
        "9"
    } else if n == 10 {
        proof {
            reveal_strlit("a");
            assert("a"@ =~= seq![hex_digit(10)]);
        }
        "a"
    } else if n == 11 {
        proof {
            reveal_strlit("b");
            assert("b"@ =~= seq![hex_digit(11)]);
        }
        "b"
    } else if n == 12 {
        proof {
            reveal_strlit("c");
            assert("c"@ =~= seq![hex_digit(12)]);
        }
        "c"
    } else if n == 13 {
        proof {
            reveal_strlit("d");
            assert("d"@ =~= seq![hex_digit(13)]);
        }
        "d"
    } else if n == 14 {
        proof {
            reveal_strlit("e");
            assert("e"@ =~= seq![hex_digit(14)]);
        }
        "e"
    } else {
        proof {
            reveal_strlit("f");
            assert("f"@ =~= seq![hex_digit(n)]);
        }
        "f"
    }
}

/// Bytes rendered as lowercase hexadecimal, two digits per byte.
pub fn hex_string(bytes: &[u8]) -> (r: String)
    ensures
        r@ == hex_of(bytes@),
{
    let mut r = String::new();
    let mut i: usize = 0;
    proof {
        assert(r@ =~= hex_of(bytes@.take(0)));
    }
    while i < bytes.len()
        invariant
            0 <= i <= bytes@.len(),
            r@ == hex_of(bytes@.take(i as int)),
        decreases bytes@.len() - i,
    {
        let b = bytes[i];
        r.append(hex_digit_str(b / 16));
        r.append(hex_digit_str(b % 16));
        proof {
            let t1 = bytes@.take(i as int);
            let t2 = bytes@.take(i as int + 1);
            assert forall|j: int| 0 <= j < 2 * i implies hex_of(t2)[j] == hex_of(t1)[j] by {
                assert(t2[j / 2] == t1[j / 2]);
            }
            assert(t2[i as int] == bytes@[i as int]);
            assert(r@ =~= hex_of(t2));
        }
        i = i + 1;
    }
    proof {
        assert(bytes@.take(bytes@.len() as int) =~= bytes@);
    }
    r
}

/// The SHA-256 digest of a byte string as lowercase hexadecimal: the content
/// hash an unauthorized-library report carries.
pub fn sha256_hex(bytes: &[u8]) -> (r: String)
    ensures
        r@ == hex_of(sha256_of(bytes@)),
{
    let d = sha256_digest(bytes);
    hex_string(d.as_slice())
}

/// Whether a byte string's SHA-256 digest, as lowercase hexadecimal, equals
/// an expected digest string.
pub fn digest_matches(bytes: &[u8], expected_hex: &str) -> (r: bool)
    ensures
        r == (hex_of(sha256_of(bytes@)) == expected_hex@),
{
    let h = sha256_hex(bytes);
    let e = expected_hex.to_owned();
    h.eq(&e)
}

} // verus!
