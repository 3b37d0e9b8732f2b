//! Command lines: `<PREFIX> <ARGUMENT>`, split at the first space.

use vstd::prelude::*;
use vstd::string::StringSliceAdditionalSpecFns;
use vstd::utf8::{encode_utf8, is_char_boundary};
use crate::protocol::Command;

verus! {

/// The position of the first space in `b`, if any.
pub open spec fn first_space(b: Seq<u8>) -> Option<int> {
    if exists|i: int| 0 <= i < b.len() && b[i] == 32u8 {
        Some(choose|i: int| 0 <= i < b.len() && b[i] == 32u8 && forall|j: int| 0 <= j < i ==> b[j] != 32u8)
    } else {
        None
    }
}

/// `MSG` as bytes.
pub open spec fn msg_prefix() -> Seq<u8> {
    seq![77u8, 83u8, 71u8]
}

/// `GET` as bytes.
pub open spec fn get_prefix() -> Seq<u8> {
    seq![71u8, 69u8, 84u8]
}

/// `PUT` as bytes.
pub open spec fn put_prefix() -> Seq<u8> {
    seq![80u8, 85u8, 84u8]
}

/// What the line with bytes `b` says: the prefix before the first space
/// selects the command, and what follows that space is its argument.
pub open spec fn command_spec(b: Seq<u8>, r: Command) -> bool {
    match first_space(b) {
        None => r is Invalid,
        Some(i) => {
            let prefix = b.subrange(0, i);
            let arg = b.subrange(i + 1, b.len() as int);
            if prefix == msg_prefix() {
                r matches Command::Msg(a) && encode_utf8(a@) == arg
            } else if prefix == get_prefix() {
                r matches Command::Get(a) && encode_utf8(a@) == arg
            } else if prefix == put_prefix() {
                r matches Command::Put(a) && encode_utf8(a@) == arg
            } else {
                r is Invalid
            }
        },
    }
}

/// Whether the first `i` bytes of `b` are exactly `c0 c1 c2`.
fn is_prefix3(b: &[u8], i: usize, c0: u8, c1: u8, c2: u8) -> (r: bool)
    requires
        i <= b@.len(),
    ensures
        r == (b@.subrange(0, i as int) == seq![c0, c1, c2]),
{
    if i != 3 {
        proof {
            if b@.subrange(0, i as int) == seq![c0, c1, c2] {
                assert(b@.subrange(0, i as int).len() == 3);
            }
        }
        return false;
    }
    let r = b[0] == c0 && b[1] == c1 && b[2] == c2;
    proof {
        if r {
            assert(b@.subrange(0, 3) =~= seq![c0, c1, c2]);
        } else if b@.subrange(0, 3) == seq![c0, c1, c2] {
            assert(b@.subrange(0, 3)[0] == b@[0]);
            assert(b@.subrange(0, 3)[1] == b@[1]);
            assert(b@.subrange(0, 3)[2] == b@[2]);
        }
    }
    r
}

/// Reads one command line.
pub fn parse_command(line: &str) -> (r: Command)
    ensures
        command_spec(line.spec_bytes(), r),
{
    let b: &[u8] = line.as_bytes();
    let mut i: usize = 0;
    while i < b.len() && b[i] != 32u8
        invariant
            i <= b@.len(),
            b@ == line.spec_bytes(),
            forall|j: int| 0 <= j < i ==> b@[j] != 32u8,
        decreases b@.len() - i,
    {
        i = i + 1;
    }
    if i == b.len() {
        return Command::Invalid;
    }
    proof {
        assert(0 <= i < b@.len() && b@[i as int] == 32u8 && forall|j: int| 0 <= j < i ==> b@[j] != 32u8);
        let fs = choose|k: int| 0 <= k < b@.len() && b@[k] == 32u8 && forall|j: int| 0 <= j < k ==> b@[j] != 32u8;
        assert(b@[i as int] == 32u8);
        if fs != i as int {
            if fs < i {
            } else {
                assert(b@[i as int] != 32u8);
            }
        }
        assert(first_space(b@) == Some(i as int));
        vstd::utf8::encode_utf8_valid_utf8(line@);
        vstd::utf8::is_char_boundary_iff_not_is_continuation_byte(b@, i as int);
        assert(!vstd::utf8::is_continuation_byte(b@[i as int]));
    }
    let (_head, tail) = line.split_at(i);
    let ghost tb = tail.spec_bytes();
    proof {
        assert(tb[0] == 32u8);
        vstd::utf8::encode_utf8_valid_utf8(tail@);
        reveal_with_fuel(is_char_boundary, 2);
        if tb.len() == 1 {
            vstd::utf8::is_char_boundary_start_end_of_seq(tb);
        } else {
            assert(vstd::utf8::length_of_first_scalar(tb) == 1);
        }
        assert(is_char_boundary(tb, 1));
    }
    let (_space, rest) = tail.split_at(1);
    let arg: String = rest.to_owned();
    proof {
        assert(rest.spec_bytes() =~= b@.subrange(i + 1, b@.len() as int));
    }
    if is_prefix3(b, i, 77u8, 83u8, 71u8) {
        Command::Msg(arg)
    } else if is_prefix3(b, i, 71u8, 69u8, 84u8) {
        Command::Get(arg)
    } else if is_prefix3(b, i, 80u8, 85u8, 84u8) {
        Command::Put(arg)
    } else {
        Command::Invalid
    }
}

} // verus!
