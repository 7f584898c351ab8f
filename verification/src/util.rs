//! Small rendering helpers: elapsed-time formatting and the numbered-tile
//! labels.

use vstd::prelude::*;

verus! {

use crate::textutil::dec_digits;
use crate::textutil::push_u64;
use vstd::string::StrSliceExecFns;
use vstd::string::StringExecFns;

/// The pieces of a formatted duration, largest unit first, each unit shown
/// only when the running remainder reaches it, and seconds only when they
/// are not zero.
pub open spec fn duration_pieces(t: u64) -> Seq<char> {
    let r1 = t as int % 86400;
    let r2 = r1 % 3600;
    let sec = r2 % 60;
    (if t >= 86400 {
        dec_digits((t as int / 86400) as nat) + "d "@
    } else {
        Seq::<char>::empty()
    }) + (if r1 >= 3600 {
        dec_digits((r1 / 3600) as nat) + "h "@
    } else {
        Seq::<char>::empty()
    }) + (if r2 >= 60 {
        dec_digits((r2 / 60) as nat) + "m "@
    } else {
        Seq::<char>::empty()
    }) + (if sec > 0 {
        dec_digits(sec as nat) + "s"@
    } else {
        Seq::<char>::empty()
    })
}

/// What `format_duration` returns: the joined pieces, with a trailing
/// space removed when the seconds part is absent, and `0s` for nothing.
pub open spec fn spec_format_duration(t: u64) -> Seq<char> {
    let pieces = duration_pieces(t);
    if pieces.len() == 0 {
        "0s"@
    } else if t as int % 60 == 0 {
        pieces.take(pieces.len() - 1)
    } else {
        pieces
    }
}

/// Render a number of seconds as days, hours, minutes and seconds, such as
/// `1d 2h 3m 4s`, leaving out leading units that are zero.
#[verifier::rlimit(100)]
#[verifier::spinoff_prover]
pub fn format_duration(t: u64) -> (r: String)
    ensures
        r@ == spec_format_duration(t),
{
    let mut s = String::new();
    let mut rem = t;
    if rem >= 86400 {
        push_u64(&mut s, rem / 86400);
        s.append("d ");
        rem = rem % 86400;
    } else {
        proof {
            vstd::arithmetic::div_mod::lemma_small_mod(rem as nat, 86400);
        }
    }
    proof {
        assert(rem == t as int % 86400);
    }
    if rem >= 3600 {
        push_u64(&mut s, rem / 3600);
        s.append("h ");
        rem = rem % 3600;
    } else {
        proof {
            vstd::arithmetic::div_mod::lemma_small_mod(rem as nat, 3600);
        }
    }
    proof {
        assert(rem == t as int % 86400 % 3600);
    }
    if rem >= 60 {
        push_u64(&mut s, rem / 60);
        s.append("m ");
        rem = rem % 60;
    } else {
        proof {
            vstd::arithmetic::div_mod::lemma_small_mod(rem as nat, 60);
        }
    }
    proof {
        assert(rem == t as int % 86400 % 3600 % 60);
    }
    if rem > 0 {
        push_u64(&mut s, rem);
        s.append("s");
        proof {
            assert(s@ =~= duration_pieces(t));
            assert(t as int % 60 != 0) by {
                lemma_mod_chain(t as int);
            }
        }
        s
    } else {
        proof {
            assert(t as int % 60 == 0) by {
                lemma_mod_chain(t as int);
            }
        }
        let n = s.unicode_len();
        if n == 0 {
            proof {
                assert(duration_pieces(t) =~= s@);
            }
            proof {
                reveal_strlit("0s");
            }
            String::from_str("0s")
        } else {
            proof {
                assert(s@ =~= duration_pieces(t));
            }
            let out = s.as_str().substring_char(0, n - 1);
            proof {
                assert(out@ =~= duration_pieces(t).take(duration_pieces(t).len() - 1));
            }
            out.to_owned()
        }
    }
}

/// Peeling days and hours off a second count does not change its seconds
/// digit: the larger units are all whole minutes.
proof fn lemma_mod_chain(t: int)
    requires
        t >= 0,
    ensures
        t % 86400 % 3600 % 60 == t % 60,
{
    vstd::arithmetic::div_mod::lemma_mod_mod(t, 60, 1440);
    assert(60 * 1440 == 86400);
    vstd::arithmetic::div_mod::lemma_mod_mod(t % 86400, 60, 60);
    assert(60 * 60 == 3600);
}

/// The keycap label for a tile value; the board caps tile values at 25.
pub fn to_emoji(n: u8) -> (r: &'static str)
    requires
        n <= 25,
{
    match n {
        0 => "0\u{fe0f}\u{20e3}",
        1 => "1\u{fe0f}\u{20e3}",
        2 => "2\u{fe0f}\u{20e3}",
        3 => "3\u{fe0f}\u{20e3}",
        4 => "4\u{fe0f}\u{20e3}",
        5 => "5\u{fe0f}\u{20e3}",
        6 => "6\u{fe0f}\u{20e3}",
        7 => "7\u{fe0f}\u{20e3}",
        8 => "8\u{fe0f}\u{20e3}",
        9 => "9\u{fe0f}\u{20e3}",
        10 => "1\u{fe0f}\u{20e3}0\u{fe0f}\u{20e3}",
        11 => "1\u{fe0f}\u{20e3}1\u{fe0f}\u{20e3}",
        12 => "1\u{fe0f}\u{20e3}2\u{fe0f}\u{20e3}",
        13 => "1\u{fe0f}\u{20e3}3\u{fe0f}\u{20e3}",
        14 => "1\u{fe0f}\u{20e3}4\u{fe0f}\u{20e3}",
        15 => "1\u{fe0f}\u{20e3}5\u{fe0f}\u{20e3}",
        16 => "1\u{fe0f}\u{20e3}6\u{fe0f}\u{20e3}",
        17 => "1\u{fe0f}\u{20e3}7\u{fe0f}\u{20e3}",
        18 => "1\u{fe0f}\u{20e3}8\u{fe0f}\u{20e3}",
        19 => "1\u{fe0f}\u{20e3}9\u{fe0f}\u{20e3}",
        20 => "2\u{fe0f}\u{20e3}0\u{fe0f}\u{20e3}",
        21 => "2\u{fe0f}\u{20e3}1\u{fe0f}\u{20e3}",
        22 => "2\u{fe0f}\u{20e3}2\u{fe0f}\u{20e3}",
        23 => "2\u{fe0f}\u{20e3}3\u{fe0f}\u{20e3}",
        24 => "2\u{fe0f}\u{20e3}4\u{fe0f}\u{20e3}",
        _ => "2\u{fe0f}\u{20e3}5\u{fe0f}\u{20e3}",
    }
}

} // verus!
