use vstd::prelude::*;
use vstd::utf8::{
    encode_scalar, encode_utf8, has_width_1_encoding, has_width_2_encoding, has_width_3_encoding,
    last_continuation_byte, leading_byte_width_1, leading_byte_width_2, leading_byte_width_3,
    second_last_continuation_byte,
};

verus! {

/// A command that a client sends to the daemon over its control socket.
#[derive(Debug, Clone, Copy, PartialEq, Eq, Structural)]
pub enum IpcCommand {
    /// Skip to the next wallpaper at once.
    Next,
}

/// The path of the daemon's control socket.
pub open spec fn socket_path_spec() -> Seq<char> {
    "/tmp/smart-wallpaper.sock"@
}

/// The path of the daemon's control socket.
pub fn get_socket_path() -> (r: String)
    ensures
        r@ == socket_path_spec(),
{
    "/tmp/smart-wallpaper.sock".to_owned()
}

/// The four bytes of the ASCII word `NEXT`.
pub open spec fn next_token() -> Seq<u8> {
    seq![0x4eu8, 0x45u8, 0x58u8, 0x54u8]
}

/// `e` is the UTF-8 encoding of one character that Unicode counts as white space
/// (the characters that `char::is_whitespace` accepts): U+0009..U+000D, U+0020,
/// U+0085, U+00A0, U+1680, U+2000..U+200A, U+2028, U+2029, U+202F, U+205F and U+3000.
pub open spec fn is_ws_encoding(e: Seq<u8>) -> bool {
    ||| e.len() == 1 && (0x09 <= e[0] <= 0x0d || e[0] == 0x20)
    ||| e.len() == 2 && e[0] == 0xc2 && (e[1] == 0x85 || e[1] == 0xa0)
    ||| e.len() == 3 && e[0] == 0xe1 && e[1] == 0x9a && e[2] == 0x80
    ||| e.len() == 3 && e[0] == 0xe2 && e[1] == 0x80 && (0x80 <= e[2] <= 0x8a || e[2] == 0xa8
        || e[2] == 0xa9 || e[2] == 0xaf)
    ||| e.len() == 3 && e[0] == 0xe2 && e[1] == 0x81 && e[2] == 0x9f
    ||| e.len() == 3 && e[0] == 0xe3 && e[1] == 0x80 && e[2] == 0x80
}

/// The Unicode scalar values that have the White_Space property (the characters that
/// `char::is_whitespace` accepts).
pub open spec fn is_white_space_scalar(v: u32) -> bool {
    ||| 0x09 <= v <= 0x0d
    ||| v == 0x20 || v == 0x85 || v == 0xa0 || v == 0x1680
    ||| 0x2000 <= v <= 0x200a
    ||| v == 0x2028 || v == 0x2029 || v == 0x202f || v == 0x205f || v == 0x3000
}

/// The UTF-8 encoding of a white-space character, byte by byte.
spec fn white_space_bytes(v: u32) -> Seq<u8> {
    if v <= 0x20 {
        seq![v as u8]
    } else if v <= 0xa0 {
        seq![0xc2u8, v as u8]
    } else if v == 0x1680 {
        seq![0xe1u8, 0x9au8, 0x80u8]
    } else if v == 0x205f {
        seq![0xe2u8, 0x81u8, 0x9fu8]
    } else if v == 0x3000 {
        seq![0xe3u8, 0x80u8, 0x80u8]
    } else {
        seq![0xe2u8, 0x80u8, (0x80 + (v - 0x2000)) as u8]
    }
}

/// vstd's UTF-8 encoding of each white-space character is the one that
/// `white_space_bytes` lists.
proof fn lemma_white_space_encoding(v: u32)
    requires
        is_white_space_scalar(v),
    ensures
        encode_scalar(v) == white_space_bytes(v),
{
    if v <= 0x20 {
        assert(has_width_1_encoding(v));
        assert(leading_byte_width_1(v) == v) by (bit_vector)
            requires
                v <= 0x20,
        ;
        assert(encode_scalar(v) =~= white_space_bytes(v));
    } else if v <= 0xa0 {
        assert(has_width_2_encoding(v));
        assert(leading_byte_width_2(v) == 0xc2 && last_continuation_byte(v) == v) by (bit_vector)
            requires
                0x80 <= v <= 0xa0,
        ;
        assert(encode_scalar(v) =~= white_space_bytes(v));
    } else {
        assert(has_width_3_encoding(v));
        let b0 = leading_byte_width_3(v);
        let b1 = second_last_continuation_byte(v);
        let b2 = last_continuation_byte(v);
        assert(b0 == 0xe1 && b1 == 0x9a && b2 == 0x80 || v != 0x1680) by (bit_vector)
            requires
                b0 == leading_byte_width_3(v),
                b1 == second_last_continuation_byte(v),
                b2 == last_continuation_byte(v),
        ;
        assert(b0 == 0xe2 && b1 == 0x81 && b2 == 0x9f || v != 0x205f) by (bit_vector)
            requires
                b0 == leading_byte_width_3(v),
                b1 == second_last_continuation_byte(v),
                b2 == last_continuation_byte(v),
        ;
        assert(b0 == 0xe3 && b1 == 0x80 && b2 == 0x80 || v != 0x3000) by (bit_vector)
            requires
                b0 == leading_byte_width_3(v),
                b1 == second_last_continuation_byte(v),
                b2 == last_continuation_byte(v),
        ;
        assert(b0 == 0xe2 && b1 == 0x80 && b2 == 0x80 + (v - 0x2000) || !(0x2000 <= v <= 0x202f))
            by (bit_vector)
            requires
                b0 == leading_byte_width_3(v),
                b1 == second_last_continuation_byte(v),
                b2 == last_continuation_byte(v),
        ;
        assert(encode_scalar(v) =~= white_space_bytes(v));
    }
}

/// The byte sequences that the message reader trims are exactly the UTF-8 encodings
/// (as vstd defines UTF-8) of the white-space characters.
pub proof fn law_ws_encodings_are_encoded_white_space(e: Seq<u8>)
    ensures
        is_ws_encoding(e) <==> exists|v: u32| is_white_space_scalar(v) && e == encode_scalar(v),
{
    if exists|v: u32| is_white_space_scalar(v) && e == encode_scalar(v) {
        let v = choose|v: u32| is_white_space_scalar(v) && e == encode_scalar(v);
        lemma_white_space_encoding(v);
    }
    if is_ws_encoding(e) {
        let v: u32 = if e.len() == 1 {
            e[0] as u32
        } else if e.len() == 2 {
            e[1] as u32
        } else if e[0] == 0xe1 {
            0x1680
        } else if e[0] == 0xe3 {
            0x3000
        } else if e[1] == 0x81 {
            0x205f
        } else {
            (0x2000 + (e[2] - 0x80)) as u32
        };
        assert(is_white_space_scalar(v));
        lemma_white_space_encoding(v);
        assert(e =~= white_space_bytes(v));
    }
}

/// `s` is a run of encoded white-space characters, one after another.
pub open spec fn is_ws_run(s: Seq<u8>) -> bool
    decreases s.len(),
{
    if s.len() == 0 {
        true
    } else {
        ||| is_ws_encoding(s.take(1)) && is_ws_run(s.skip(1))
        ||| s.len() >= 2 && is_ws_encoding(s.take(2)) && is_ws_run(s.skip(2))
        ||| s.len() >= 3 && is_ws_encoding(s.take(3)) && is_ws_run(s.skip(3))
    }
}

/// The message reads `NEXT` once it is decoded as UTF-8 (invalid sequences decoded as
/// U+FFFD) and white space is trimmed from both of its ends.
pub open spec fn is_next_message(b: Seq<u8>) -> bool {
    exists|i: int|
        0 <= i && i + 4 <= b.len() && is_ws_run(#[trigger] b.take(i)) && b.subrange(i, i + 4)
            == next_token() && is_ws_run(b.skip(i + 4))
}

/// The command that a message sent to the control socket asks for, if any.
pub open spec fn command_of(b: Seq<u8>) -> Option<IpcCommand> {
    if is_next_message(b) {
        Some(IpcCommand::Next)
    } else {
        None
    }
}

/// The bytes that ask for a command.
pub open spec fn encoding_of(c: IpcCommand) -> Seq<u8> {
    match c {
        IpcCommand::Next => next_token(),
    }
}

/// Length of the encoded white-space character that starts at `p` in `b`, or 0.
pub open spec fn ws_step(b: Seq<u8>, p: int) -> int {
    if 0 <= p && p + 1 <= b.len() && is_ws_encoding(b.subrange(p, p + 1)) {
        1
    } else if 0 <= p && p + 2 <= b.len() && is_ws_encoding(b.subrange(p, p + 2)) {
        2
    } else if 0 <= p && p + 3 <= b.len() && is_ws_encoding(b.subrange(p, p + 3)) {
        3
    } else {
        0
    }
}

/// Where the longest run of encoded white space that starts at `p` ends.
pub open spec fn ws_end(b: Seq<u8>, p: int) -> int
    decreases b.len() - p,
{
    if 0 <= p <= b.len() && ws_step(b, p) > 0 {
        ws_end(b, p + ws_step(b, p))
    } else {
        p
    }
}

/// An encoded white-space character has one length only: the first byte decides it.
proof fn lemma_encoding_length_unique(b: Seq<u8>, p: int, k: int)
    requires
        0 <= p,
        1 <= k <= 3,
        p + k <= b.len(),
        is_ws_encoding(b.subrange(p, p + k)),
    ensures
        ws_step(b, p) == k,
{
}

proof fn lemma_ws_end_bounds(b: Seq<u8>, p: int)
    requires
        0 <= p <= b.len(),
    ensures
        p <= ws_end(b, p) <= b.len(),
        ws_step(b, ws_end(b, p)) == 0,
    decreases b.len() - p,
{
    if ws_step(b, p) > 0 {
        lemma_ws_end_bounds(b, p + ws_step(b, p));
    }
}

/// The greedy run from `p` is a white-space run.
proof fn lemma_ws_end_is_run(b: Seq<u8>, p: int)
    requires
        0 <= p <= b.len(),
    ensures
        is_ws_run(b.subrange(p, ws_end(b, p))),
    decreases b.len() - p,
{
    lemma_ws_end_bounds(b, p);
    let e = ws_end(b, p);
    let s = b.subrange(p, e);
    if ws_step(b, p) > 0 {
        let k = ws_step(b, p);
        lemma_ws_end_is_run(b, p + k);
        lemma_ws_end_bounds(b, p + k);
        assert(s.take(k) =~= b.subrange(p, p + k));
        assert(s.skip(k) =~= b.subrange(p + k, e));
    } else {
        assert(s.len() == 0);
    }
}

/// Any white-space run from `p` to `x` lies on the greedy path: the greedy run from `x`
/// ends where the one from `p` does.
proof fn lemma_run_on_greedy_path(b: Seq<u8>, p: int, x: int)
    requires
        0 <= p <= x <= b.len(),
        is_ws_run(b.subrange(p, x)),
    ensures
        ws_end(b, p) == ws_end(b, x),
    decreases x - p,
{
    let s = b.subrange(p, x);
    if x > p {
        let k: int = if is_ws_encoding(s.take(1)) && is_ws_run(s.skip(1)) {
            1
        } else if s.len() >= 2 && is_ws_encoding(s.take(2)) && is_ws_run(s.skip(2)) {
            2
        } else {
            3
        };
        assert(s.take(k) =~= b.subrange(p, p + k));
        assert(s.skip(k) =~= b.subrange(p + k, x));
        lemma_encoding_length_unique(b, p, k);
        lemma_run_on_greedy_path(b, p + k, x);
    }
}

/// The message reads `NEXT` exactly when the greedy white-space run from the start is
/// followed by `NEXT` and a white-space run that reaches the end.
proof fn lemma_next_message_greedy(b: Seq<u8>)
    ensures
        is_next_message(b) <==> {
            let e = ws_end(b, 0);
            &&& e + 4 <= b.len()
            &&& b.subrange(e, e + 4) == next_token()
            &&& ws_end(b, e + 4) == b.len()
        },
{
    lemma_ws_end_bounds(b, 0);
    let e = ws_end(b, 0);
    if is_next_message(b) {
        let i = choose|i: int|
            0 <= i && i + 4 <= b.len() && is_ws_run(#[trigger] b.take(i)) && b.subrange(i, i + 4)
                == next_token() && is_ws_run(b.skip(i + 4));
        assert(b.take(i) =~= b.subrange(0, i));
        lemma_run_on_greedy_path(b, 0, i);
        assert(b[i] == 0x4e) by {
            assert(b.subrange(i, i + 4)[0] == b[i]);
        }
        assert(ws_step(b, i) == 0) by {
            assert(b.subrange(i, i + 1)[0] == b[i]);
            if i + 2 <= b.len() {
                assert(b.subrange(i, i + 2)[0] == b[i]);
            }
            if i + 3 <= b.len() {
                assert(b.subrange(i, i + 3)[0] == b[i]);
            }
        }
        assert(b.skip(i + 4) =~= b.subrange(i + 4, b.len() as int));
        lemma_run_on_greedy_path(b, i + 4, b.len() as int);
    }
    if e + 4 <= b.len() && b.subrange(e, e + 4) == next_token() && ws_end(b, e + 4) == b.len() {
        lemma_ws_end_is_run(b, 0);
        lemma_ws_end_is_run(b, e + 4);
        assert(b.take(e) =~= b.subrange(0, e));
        assert(b.skip(e + 4) =~= b.subrange(e + 4, b.len() as int));
    }
}

/// Length of the encoded white-space character at `p`, or 0.
fn ws_step_at(b: &[u8], p: usize) -> (k: usize)
    requires
        p <= b@.len(),
    ensures
        k == ws_step(b@, p as int),
        p + k <= b@.len(),
{
    let n = b.len();
    let ghost s = b@;
    if p < n {
        let c0 = b[p];
        if (0x09 <= c0 && c0 <= 0x0d) || c0 == 0x20 {
            assert(s.subrange(p as int, p + 1)[0] == c0);
            return 1;
        }
        assert(!is_ws_encoding(s.subrange(p as int, p + 1))) by {
            assert(s.subrange(p as int, p + 1)[0] == c0);
        }
        if n - p >= 2 {
            let c1 = b[p + 1];
            let ghost t = s.subrange(p as int, p + 2);
            assert(t[0] == c0 && t[1] == c1);
            if c0 == 0xc2 && (c1 == 0x85 || c1 == 0xa0) {
                return 2;
            }
            if n - p >= 3 {
                let c2 = b[p + 2];
                let ghost u = s.subrange(p as int, p + 3);
                assert(u[0] == c0 && u[1] == c1 && u[2] == c2);
                if (c0 == 0xe1 && c1 == 0x9a && c2 == 0x80) || (c0 == 0xe2 && c1 == 0x80 && ((
                0x80 <= c2 && c2 <= 0x8a) || c2 == 0xa8 || c2 == 0xa9 || c2 == 0xaf)) || (c0 == 0xe2
                    && c1 == 0x81 && c2 == 0x9f) || (c0 == 0xe3 && c1 == 0x80 && c2 == 0x80) {
                    return 3;
                }
            }
        }
    }
    0
}

/// End of the longest run of encoded white space that starts at `p`.
fn skip_ws(b: &[u8], p: usize) -> (e: usize)
    requires
        p <= b@.len(),
    ensures
        e == ws_end(b@, p as int),
{
    let n = b.len();
    let mut q = p;
    loop
        invariant
            n == b@.len(),
            p <= q <= b@.len(),
            ws_end(b@, p as int) == ws_end(b@, q as int),
        decreases b@.len() - q,
    {
        let k = ws_step_at(b, q);
        if k == 0 {
            return q;
        }
        q = q + k;
    }
}

/// Reads a message sent to the control socket: `NEXT`, with any white space around it,
/// asks for the next wallpaper; anything else asks for nothing.
pub fn parse_ipc_command(b: &[u8]) -> (r: Option<IpcCommand>)
    ensures
        r == command_of(b@),
{
    proof {
        lemma_next_message_greedy(b@);
        lemma_ws_end_bounds(b@, 0);
    }
    let e = skip_ws(b, 0);
    if b.len() - e >= 4 && b[e] == 0x4e && b[e + 1] == 0x45 && b[e + 2] == 0x58 && b[e + 3]
        == 0x54 {
        proof {
            assert(b@.subrange(e as int, e + 4) =~= next_token());
            lemma_ws_end_bounds(b@, e + 4);
        }
        let f = skip_ws(b, e + 4);
        if f == b.len() {
            return Some(IpcCommand::Next);
        }
    } else {
        proof {
            if e + 4 <= b@.len() {
                assert(b@.subrange(e as int, e + 4) != next_token()) by {
                    let t = b@.subrange(e as int, e + 4);
                    assert(t[0] == b@[e as int] && t[1] == b@[e + 1] && t[2] == b@[e + 2] && t[3]
                        == b@[e + 3]);
                }
            }
        }
    }
    None
}

/// The bytes that a client writes to the control socket to ask for a command.
pub fn encode_ipc_command(c: IpcCommand) -> (r: Vec<u8>)
    ensures
        r@ == encoding_of(c),
{
    match c {
        IpcCommand::Next => {
            let v: Vec<u8> = vec![0x4eu8, 0x45u8, 0x58u8, 0x54u8];
            assert(v@ =~= next_token());
            v
        },
    }
}

/// Reading what a client writes for a command gives that command back.
pub proof fn law_command_round_trip(c: IpcCommand)
    ensures
        command_of(encoding_of(c)) == Some(c),
{
    let b = encoding_of(c);
    assert(b.take(0) =~= Seq::<u8>::empty());
    assert(b.skip(4) =~= Seq::<u8>::empty());
    assert(b.subrange(0, 4) =~= b);
    assert(is_ws_run(b.take(0)));
}

/// Every character of `cs` is white space.
pub open spec fn all_white_space(cs: Seq<char>) -> bool {
    forall|i: int| 0 <= i < cs.len() ==> is_white_space_scalar(#[trigger] cs[i] as u32)
}

proof fn lemma_encoded_white_space_is_run(cs: Seq<char>)
    requires
        all_white_space(cs),
    ensures
        is_ws_run(encode_utf8(cs)),
    decreases cs.len(),
{
    if cs.len() > 0 {
        let v = cs[0] as u32;
        assert(is_white_space_scalar(v));
        lemma_white_space_encoding(v);
        law_ws_encodings_are_encoded_white_space(encode_scalar(v));
        let e = encode_scalar(v);
        let rest = cs.drop_first();
        assert(all_white_space(rest)) by {
            assert forall|i: int| 0 <= i < rest.len() implies is_white_space_scalar(
                #[trigger] rest[i] as u32,
            ) by {
                assert(rest[i] == cs[i + 1]);
            }
        }
        lemma_encoded_white_space_is_run(rest);
        let s = encode_utf8(cs);
        assert(s == e + encode_utf8(rest));
        let k = e.len() as int;
        assert(s.take(k) =~= e);
        assert(s.skip(k) =~= encode_utf8(rest));
    } else {
        assert(encode_utf8(cs) =~= Seq::<u8>::empty());
    }
}

proof fn lemma_run_is_encoded_white_space(s: Seq<u8>)
    requires
        is_ws_run(s),
    ensures
        exists|cs: Seq<char>| all_white_space(cs) && s == encode_utf8(cs),
    decreases s.len(),
{
    if s.len() == 0 {
        assert(s =~= encode_utf8(Seq::<char>::empty()));
        assert(all_white_space(Seq::<char>::empty()));
    } else {
        let k: int = if is_ws_encoding(s.take(1)) && is_ws_run(s.skip(1)) {
            1
        } else if s.len() >= 2 && is_ws_encoding(s.take(2)) && is_ws_run(s.skip(2)) {
            2
        } else {
            3
        };
        law_ws_encodings_are_encoded_white_space(s.take(k));
        let v = choose|v: u32| is_white_space_scalar(v) && s.take(k) == encode_scalar(v);
        let c = v as char;
        assert(c as u32 == v);
        lemma_run_is_encoded_white_space(s.skip(k));
        let cs2 = choose|cs2: Seq<char>| all_white_space(cs2) && s.skip(k) == encode_utf8(cs2);
        let cs = seq![c] + cs2;
        assert(cs.drop_first() =~= cs2);
        assert(cs[0] == c);
        assert(encode_utf8(cs) == encode_scalar(v) + encode_utf8(cs2));
        assert(s =~= s.take(k) + s.skip(k));
        assert(all_white_space(cs)) by {
            assert forall|i: int| 0 <= i < cs.len() implies is_white_space_scalar(
                #[trigger] cs[i] as u32,
            ) by {
                if i > 0 {
                    assert(cs[i] == cs2[i - 1]);
                }
            }
        }
    }
}

/// A message asks for the next wallpaper exactly when its bytes are the UTF-8 encoding
/// (as vstd defines it) of some white-space characters, then the ASCII bytes of `NEXT`
/// (0x4e 0x45 0x58 0x54), then some white-space characters.
pub proof fn law_next_message_is_next_between_white_space(b: Seq<u8>)
    ensures
        command_of(b) == Some(IpcCommand::Next) <==> exists|cs1: Seq<char>, cs2: Seq<char>|
            all_white_space(cs1) && all_white_space(cs2) && b == encode_utf8(cs1) + seq![
                0x4eu8,
                0x45u8,
                0x58u8,
                0x54u8,
            ] + encode_utf8(cs2),
        command_of(b) is None || command_of(b) == Some(IpcCommand::Next),
{
    let t = seq![0x4eu8, 0x45u8, 0x58u8, 0x54u8];
    assert(t == next_token());
    if command_of(b) == Some(IpcCommand::Next) {
        let i = choose|i: int|
            0 <= i && i + 4 <= b.len() && is_ws_run(#[trigger] b.take(i)) && b.subrange(i, i + 4)
                == next_token() && is_ws_run(b.skip(i + 4));
        lemma_run_is_encoded_white_space(b.take(i));
        lemma_run_is_encoded_white_space(b.skip(i + 4));
        let cs1 = choose|cs1: Seq<char>| all_white_space(cs1) && b.take(i) == encode_utf8(cs1);
        let cs2 = choose|cs2: Seq<char>| all_white_space(cs2) && b.skip(i + 4) == encode_utf8(cs2);
        assert(b =~= encode_utf8(cs1) + t + encode_utf8(cs2));
    }
    if exists|cs1: Seq<char>, cs2: Seq<char>|
        all_white_space(cs1) && all_white_space(cs2) && b == encode_utf8(cs1) + t + encode_utf8(
            cs2,
        ) {
        let (cs1, cs2) = choose|cs1: Seq<char>, cs2: Seq<char>|
            all_white_space(cs1) && all_white_space(cs2) && b == encode_utf8(cs1) + t
                + encode_utf8(cs2);
        lemma_encoded_white_space_is_run(cs1);
        lemma_encoded_white_space_is_run(cs2);
        let i = encode_utf8(cs1).len() as int;
        assert(b.take(i) =~= encode_utf8(cs1));
        assert(b.subrange(i, i + 4) =~= next_token());
        assert(b.skip(i + 4) =~= encode_utf8(cs2));
    }
}

} // verus!
