//! The text-frame codec: how a join request and a relayed message are written
//! as one text frame and read back, with a proved lossless round trip.
//!
//! A message frame is `id` as 32 hex digits, a sign character, the magnitude
//! of `time` as 16 hex digits, the sender length as 16 hex digits, then the
//! sender and the text. A join frame is the room id as 32 hex digits followed
//! by the username.
use vstd::prelude::*;
use vstd::string::StrSliceExecFns;
use crate::hex::{
    hex_parse, hex_seq, is_hex_seq, lemma_hex_parse_bound, lemma_hex_round_trip,
    lemma_hex_seq_is_hex, lemma_hex_seq_len, lemma_pow16_16, lemma_pow16_32, parse_hex, pow16,
    push_hex,
};
use crate::message::{MsgView, WsMessage};

verus! {

/// Magnitude of a timestamp.
pub open spec fn abs_of(t: int) -> nat {
    if t >= 0 {
        t as nat
    } else {
        (-t) as nat
    }
}

/// Sign character of a timestamp.
pub open spec fn sign_of(t: int) -> char {
    if t >= 0 {
        '+'
    } else {
        '-'
    }
}

/// The frame that carries a message.
pub open spec fn encode_msg_spec(m: MsgView) -> Seq<char> {
    hex_seq(m.id as nat, 32) + seq![sign_of(m.time as int)] + hex_seq(abs_of(m.time as int), 16)
        + hex_seq(m.sender.len(), 16) + m.sender + m.text
}

/// The message a frame carries, if it is well formed.
pub open spec fn decode_msg_spec(s: Seq<char>) -> Option<MsgView> {
    if s.len() < 65 {
        None
    } else {
        let idp = s.subrange(0, 32);
        let sign = s[32];
        let absp = s.subrange(33, 49);
        let lenp = s.subrange(49, 65);
        if !is_hex_seq(idp) || !is_hex_seq(absp) || !is_hex_seq(lenp) {
            None
        } else if sign != '+' && sign != '-' {
            None
        } else {
            let a = hex_parse(absp);
            let slen = hex_parse(lenp);
            if 65 + slen > s.len() {
                None
            } else if sign == '+' && a > i64::MAX as nat {
                None
            } else if sign == '-' && !(1 <= a <= 0x8000000000000000) {
                None
            } else {
                Some(
                    MsgView {
                        id: hex_parse(idp) as u128,
                        sender: s.subrange(65, 65 + slen as int),
                        text: s.subrange(65 + slen as int, s.len() as int),
                        time: (if sign == '+' {
                            a as int
                        } else {
                            -(a as int)
                        }) as i64,
                    },
                )
            }
        }
    }
}

/// The frame that carries a join request.
pub open spec fn encode_join_spec(room_id: u128, username: Seq<char>) -> Seq<char> {
    hex_seq(room_id as nat, 32) + username
}

/// The join request a frame carries, if it is well formed.
pub open spec fn decode_join_spec(s: Seq<char>) -> Option<(u128, Seq<char>)> {
    if s.len() < 32 {
        None
    } else if !is_hex_seq(s.subrange(0, 32)) {
        None
    } else {
        Some((hex_parse(s.subrange(0, 32)) as u128, s.subrange(32, s.len() as int)))
    }
}

/// The characters of `s`, in order.
pub fn str_to_chars(s: &str) -> (v: Vec<char>)
    ensures
        v@ == s@,
{
    let n = s.unicode_len();
    let mut v: Vec<char> = Vec::new();
    let mut i: usize = 0;
    while i < n
        invariant
            n == s@.len(),
            i <= n,
            v@ == s@.subrange(0, i as int),
        decreases n - i,
    {
        v.push(s.get_char(i));
        assert(v@ =~= s@.subrange(0, i + 1));
        i += 1;
    }
    assert(v@ =~= s@);
    v
}

/// Appends every character of `src` to `out`.
fn append_chars(out: &mut Vec<char>, src: &Vec<char>)
    ensures
        final(out)@ == old(out)@ + src@,
{
    let n = src.len();
    let mut i: usize = 0;
    while i < n
        invariant
            n == src@.len(),
            i <= n,
            out@ == old(out)@ + src@.subrange(0, i as int),
        decreases n - i,
    {
        out.push(src[i]);
        assert(out@ =~= old(out)@ + src@.subrange(0, i + 1));
        i += 1;
    }
    assert(out@ =~= old(out)@ + src@);
}

/// The characters of `v`, from `from` up to `to`.
fn subvec(v: &Vec<char>, from: usize, to: usize) -> (r: Vec<char>)
    requires
        from <= to <= v@.len(),
    ensures
        r@ == v@.subrange(from as int, to as int),
{
    let mut r: Vec<char> = Vec::new();
    let mut i: usize = from;
    while i < to
        invariant
            from <= i <= to <= v@.len(),
            r@ == v@.subrange(from as int, i as int),
        decreases to - i,
    {
        r.push(v[i]);
        assert(r@ =~= v@.subrange(from as int, i + 1));
        i += 1;
    }
    r
}

/// Relies on `String`'s `FromIterator` over characters: the string holds
/// exactly the characters of `v`, in order.
#[verifier::external_body]
fn chars_to_string(v: &Vec<char>) -> (r: String)
    ensures
        r@ == v@,
{
    v.iter().collect()
}

/// Writes `m` as one text frame.
pub fn encode_message(m: &WsMessage) -> (r: String)
    ensures
        r@ == encode_msg_spec(m@),
{
    proof {
        lemma_pow16_16();
        lemma_pow16_32();
    }
    let mut out: Vec<char> = Vec::new();
    push_hex(&mut out, m.id, 32);
    if m.time >= 0 {
        out.push('+');
        push_hex(&mut out, m.time as u128, 16);
        assert(m.time as u128 as nat == abs_of(m@.time as int));
    } else {
        out.push('-');
        let a: u64 = ((-(m.time + 1)) as u64) + 1;
        assert(a as nat == abs_of(m@.time as int));
        push_hex(&mut out, a as u128, 16);
    }
    let schars = str_to_chars(m.sender.as_str());
    let slen: u64 = schars.len() as u64;
    assert(slen as nat == m@.sender.len());
    push_hex(&mut out, slen as u128, 16);
    append_chars(&mut out, &schars);
    let tchars = str_to_chars(m.text.as_str());
    append_chars(&mut out, &tchars);
    assert(out@ =~= encode_msg_spec(m@));
    chars_to_string(&out)
}

/// Reads a message frame; `None` exactly when the frame is malformed.
pub fn decode_message(s: &str) -> (r: Option<WsMessage>)
    ensures
        match r {
            Some(m) => decode_msg_spec(s@) == Some(m@),
            None => decode_msg_spec(s@) is None,
        },
{
    proof {
        lemma_pow16_16();
        lemma_pow16_32();
    }
    let v = str_to_chars(s);
    let n = v.len();
    if n < 65 {
        return None;
    }
    let id = match parse_hex(&v, 0, 32) {
        Some(x) => x,
        None => {
            return None;
        },
    };
    let sign = v[32];
    let a128 = match parse_hex(&v, 33, 16) {
        Some(x) => x,
        None => {
            return None;
        },
    };
    let l128 = match parse_hex(&v, 49, 16) {
        Some(x) => x,
        None => {
            return None;
        },
    };
    if sign != '+' && sign != '-' {
        return None;
    }
    proof {
        lemma_hex_parse_bound(s@.subrange(33, 49));
        lemma_hex_parse_bound(s@.subrange(49, 65));
    }
    if l128 > (n - 65) as u128 {
        return None;
    }
    let slen: usize = l128 as usize;
    let time: i64 = if sign == '+' {
        if a128 > i64::MAX as u128 {
            return None;
        }
        a128 as i64
    } else {
        if a128 == 0 || a128 > 0x8000000000000000 {
            return None;
        }
        -((a128 - 1) as i64) - 1
    };
    let sender = chars_to_string(&subvec(&v, 65, 65 + slen));
    let text = chars_to_string(&subvec(&v, 65 + slen, n));
    let m = WsMessage { id, sender, text, time };
    proof {
        assert(decode_msg_spec(s@) == Some(m@));
    }
    Some(m)
}

/// Writes a join request as one text frame.
pub fn encode_join(room_id: u128, username: &str) -> (r: String)
    ensures
        r@ == encode_join_spec(room_id, username@),
{
    proof {
        lemma_pow16_32();
    }
    let mut out: Vec<char> = Vec::new();
    push_hex(&mut out, room_id, 32);
    let uchars = str_to_chars(username);
    append_chars(&mut out, &uchars);
    assert(out@ =~= encode_join_spec(room_id, username@));
    chars_to_string(&out)
}

/// Reads a join frame; `None` exactly when the frame is malformed.
pub fn decode_join(s: &str) -> (r: Option<(u128, String)>)
    ensures
        match r {
            Some(p) => decode_join_spec(s@) == Some((p.0, p.1@)),
            None => decode_join_spec(s@) is None,
        },
{
    let v = str_to_chars(s);
    let n = v.len();
    if n < 32 {
        return None;
    }
    let id = match parse_hex(&v, 0, 32) {
        Some(x) => x,
        None => {
            return None;
        },
    };
    let username = chars_to_string(&subvec(&v, 32, n));
    Some((id, username))
}

/// Round trip: a message frame read back yields the message it was written
/// from, equal in all four fields.
pub proof fn lemma_message_round_trip(m: MsgView)
    requires
        m.sender.len() < 0x10000000000000000,
    ensures
        decode_msg_spec(encode_msg_spec(m)) == Some(m),
{
    lemma_pow16_16();
    lemma_pow16_32();
    let idp = hex_seq(m.id as nat, 32);
    let signs = seq![sign_of(m.time as int)];
    let a = abs_of(m.time as int);
    let absp = hex_seq(a, 16);
    let lenp = hex_seq(m.sender.len(), 16);
    let e = encode_msg_spec(m);
    lemma_hex_seq_len(m.id as nat, 32);
    lemma_hex_seq_len(a, 16);
    lemma_hex_seq_len(m.sender.len(), 16);
    assert(e.len() == 65 + m.sender.len() + m.text.len());
    assert(e.subrange(0, 32) =~= idp);
    assert(e[32] == sign_of(m.time as int));
    assert(e.subrange(33, 49) =~= absp);
    assert(e.subrange(49, 65) =~= lenp);
    lemma_hex_seq_is_hex(m.id as nat, 32);
    lemma_hex_seq_is_hex(a, 16);
    lemma_hex_seq_is_hex(m.sender.len(), 16);
    lemma_hex_round_trip(m.id as nat, 32);
    lemma_hex_round_trip(a, 16);
    lemma_hex_round_trip(m.sender.len(), 16);
    let slen = m.sender.len();
    assert(e.subrange(65, 65 + slen as int) =~= m.sender);
    assert(e.subrange(65 + slen as int, e.len() as int) =~= m.text);
    let d = decode_msg_spec(e);
    assert(d is Some);
    assert(d->Some_0 =~= m);
}

/// Round trip: a join frame read back yields the room id and username it was
/// written from.
pub proof fn lemma_join_round_trip(room_id: u128, username: Seq<char>)
    ensures
        decode_join_spec(encode_join_spec(room_id, username)) == Some((room_id, username)),
{
    lemma_pow16_32();
    let idp = hex_seq(room_id as nat, 32);
    let e = encode_join_spec(room_id, username);
    lemma_hex_seq_len(room_id as nat, 32);
    assert(e.subrange(0, 32) =~= idp);
    lemma_hex_seq_is_hex(room_id as nat, 32);
    lemma_hex_round_trip(room_id as nat, 32);
    assert(e.subrange(32, e.len() as int) =~= username);
}

} // verus!
