//! The stable binary encoding of command messages used on the wire and in
//! the log, with its round trip proved: deserializing what was serialized
//! gives the message back, so re-serializing is byte-identical.
use vstd::prelude::*;
use vstd::bytes::{spec_u64_to_le_bytes, spec_u64_from_le_bytes, lemma_auto_spec_u64_to_from_le_bytes, u64_to_le_bytes, u64_from_le_bytes};
use vstd::utf8::{encode_utf8, decode_utf8, valid_utf8, encode_utf8_valid_utf8, encode_utf8_decode_utf8};
use crate::types::{Message, MessageV, strs_view, opt_str_view};
use crate::ext::string_from_utf8;

verus! {

/// A u64, in eight little-endian bytes.
pub open spec fn enc_u64(x: u64) -> Seq<u8> {
    spec_u64_to_le_bytes(x)
}

/// A string: its UTF-8 byte length, then its UTF-8 bytes.
pub open spec fn enc_str(s: Seq<char>) -> Seq<u8> {
    enc_u64(encode_utf8(s).len() as u64) + encode_utf8(s)
}

/// An optional string: an absent/present tag byte, then the string.
pub open spec fn enc_opt_str(o: Option<Seq<char>>) -> Seq<u8> {
    match o {
        None => seq![0u8],
        Some(s) => seq![1u8] + enc_str(s),
    }
}

/// A boolean, in one byte.
pub open spec fn enc_bool(p: bool) -> Seq<u8> {
    seq![if p { 1u8 } else { 0u8 }]
}

/// Strings one after another (their count is encoded before them).
pub open spec fn enc_str_list(ss: Seq<Seq<char>>) -> Seq<u8>
    decreases ss.len(),
{
    if ss.len() == 0 {
        Seq::empty()
    } else {
        enc_str(ss[0]) + enc_str_list(ss.drop_first())
    }
}

/// A command message: a variant tag byte, then its fields in order.
pub open spec fn msg_bytes(m: MessageV) -> Seq<u8> {
    match m {
        MessageV::CreateIndex { uid, primary_key } => seq![0u8] + enc_opt_str(uid) + enc_opt_str(primary_key),
        MessageV::UpdateIndex { index_uid, update } => seq![1u8] + enc_str(index_uid) + enc_str(update),
        MessageV::DeleteIndex { index_uid } => seq![2u8] + enc_str(index_uid),
        MessageV::DocumentAddition { update_query, index_uid, documents, partial } =>
            seq![3u8] + enc_str(update_query) + enc_str(index_uid) + enc_str(documents) + enc_bool(partial),
        MessageV::DocumentsDeletion { index_uid, ids } =>
            seq![4u8] + enc_str(index_uid) + enc_u64(ids.len() as u64) + enc_str_list(ids),
        MessageV::ClearAllDocuments { index_uid } => seq![5u8] + enc_str(index_uid),
        MessageV::SettingsUpdate { index_uid, update } => seq![6u8] + enc_str(index_uid) + enc_str(update),
    }
}

/// Read a u64; what follows is returned.
pub open spec fn dec_u64(b: Seq<u8>) -> Option<(u64, Seq<u8>)> {
    if b.len() >= 8 {
        Some((spec_u64_from_le_bytes(b.take(8)), b.skip(8)))
    } else {
        None
    }
}

/// Read a length-prefixed UTF-8 string.
pub open spec fn dec_str(b: Seq<u8>) -> Option<(Seq<char>, Seq<u8>)> {
    match dec_u64(b) {
        Some((n, r)) => if r.len() >= n && valid_utf8(r.take(n as int)) {
            Some((decode_utf8(r.take(n as int)), r.skip(n as int)))
        } else {
            None
        },
        None => None,
    }
}

/// Read an optional string.
pub open spec fn dec_opt_str(b: Seq<u8>) -> Option<(Option<Seq<char>>, Seq<u8>)> {
    if b.len() < 1 {
        None
    } else if b[0] == 0 {
        Some((None, b.skip(1)))
    } else if b[0] == 1 {
        match dec_str(b.skip(1)) {
            Some((s, r)) => Some((Some(s), r)),
            None => None,
        }
    } else {
        None
    }
}

/// Read a boolean.
pub open spec fn dec_bool(b: Seq<u8>) -> Option<(bool, Seq<u8>)> {
    if b.len() < 1 {
        None
    } else if b[0] == 0 {
        Some((false, b.skip(1)))
    } else if b[0] == 1 {
        Some((true, b.skip(1)))
    } else {
        None
    }
}

/// Read exactly `n` strings.
pub open spec fn dec_strs(b: Seq<u8>, n: nat) -> Option<(Seq<Seq<char>>, Seq<u8>)>
    decreases n,
{
    if n == 0 {
        Some((Seq::empty(), b))
    } else {
        match dec_str(b) {
            Some((s, r)) => match dec_strs(r, (n - 1) as nat) {
                Some((ss, r2)) => Some((seq![s] + ss, r2)),
                None => None,
            },
            None => None,
        }
    }
}

/// Read a whole command message; trailing bytes make the input invalid.
pub open spec fn msg_of(b: Seq<u8>) -> Option<MessageV> {
    if b.len() < 1 {
        None
    } else {
        let t = b[0];
        let r = b.skip(1);
        if t == 0 {
            match dec_opt_str(r) {
                Some((uid, r1)) => match dec_opt_str(r1) {
                    Some((primary_key, r2)) => if r2.len() == 0 {
                        Some(MessageV::CreateIndex { uid, primary_key })
                    } else {
                        None
                    },
                    None => None,
                },
                None => None,
            }
        } else if t == 1 {
            match dec_str(r) {
                Some((index_uid, r1)) => match dec_str(r1) {
                    Some((update, r2)) => if r2.len() == 0 {
                        Some(MessageV::UpdateIndex { index_uid, update })
                    } else {
                        None
                    },
                    None => None,
                },
                None => None,
            }
        } else if t == 2 {
            match dec_str(r) {
                Some((index_uid, r1)) => if r1.len() == 0 {
                    Some(MessageV::DeleteIndex { index_uid })
                } else {
                    None
                },
                None => None,
            }
        } else if t == 3 {
            match dec_str(r) {
                Some((update_query, r1)) => match dec_str(r1) {
                    Some((index_uid, r2)) => match dec_str(r2) {
                        Some((documents, r3)) => match dec_bool(r3) {
                            Some((partial, r4)) => if r4.len() == 0 {
                                Some(MessageV::DocumentAddition { update_query, index_uid, documents, partial })
                            } else {
                                None
                            },
                            None => None,
                        },
                        None => None,
                    },
                    None => None,
                },
                None => None,
            }
        } else if t == 4 {
            match dec_str(r) {
                Some((index_uid, r1)) => match dec_u64(r1) {
                    Some((n, r2)) => match dec_strs(r2, n as nat) {
                        Some((ids, r3)) => if r3.len() == 0 {
                            Some(MessageV::DocumentsDeletion { index_uid, ids })
                        } else {
                            None
                        },
                        None => None,
                    },
                    None => None,
                },
                None => None,
            }
        } else if t == 5 {
            match dec_str(r) {
                Some((index_uid, r1)) => if r1.len() == 0 {
                    Some(MessageV::ClearAllDocuments { index_uid })
                } else {
                    None
                },
                None => None,
            }
        } else if t == 6 {
            match dec_str(r) {
                Some((index_uid, r1)) => match dec_str(r1) {
                    Some((update, r2)) => if r2.len() == 0 {
                        Some(MessageV::SettingsUpdate { index_uid, update })
                    } else {
                        None
                    },
                    None => None,
                },
                None => None,
            }
        } else {
            None
        }
    }
}

/// A string short enough for its byte length to be encoded.
pub open spec fn str_ok(s: Seq<char>) -> bool {
    encode_utf8(s).len() <= u64::MAX
}

/// Whether every field of a message fits the encoding's length prefixes.
/// Every message built from executable strings satisfies this.
pub open spec fn msg_bounded(m: MessageV) -> bool {
    match m {
        MessageV::CreateIndex { uid, primary_key } => {
            &&& (uid matches Some(s) ==> str_ok(s))
            &&& (primary_key matches Some(s) ==> str_ok(s))
        },
        MessageV::UpdateIndex { index_uid, update } => str_ok(index_uid) && str_ok(update),
        MessageV::DeleteIndex { index_uid } => str_ok(index_uid),
        MessageV::DocumentAddition { update_query, index_uid, documents, .. } =>
            str_ok(update_query) && str_ok(index_uid) && str_ok(documents),
        MessageV::DocumentsDeletion { index_uid, ids } => {
            &&& str_ok(index_uid)
            &&& ids.len() <= u64::MAX
            &&& forall|i: int| 0 <= i < ids.len() ==> str_ok(#[trigger] ids[i])
        },
        MessageV::ClearAllDocuments { index_uid } => str_ok(index_uid),
        MessageV::SettingsUpdate { index_uid, update } => str_ok(index_uid) && str_ok(update),
    }
}

/// Reading a u64 back from its encoding leaves the rest untouched.
proof fn lemma_dec_u64(x: u64, rest: Seq<u8>)
    ensures
        dec_u64(enc_u64(x) + rest) == Some((x, rest)),
{
    lemma_auto_spec_u64_to_from_le_bytes();
    assert((enc_u64(x) + rest).take(8) =~= enc_u64(x));
    assert((enc_u64(x) + rest).skip(8) =~= rest);
}

/// Reading a string back from its encoding leaves the rest untouched.
proof fn lemma_dec_str(s: Seq<char>, rest: Seq<u8>)
    requires
        str_ok(s),
    ensures
        dec_str(enc_str(s) + rest) == Some((s, rest)),
{
    broadcast use encode_utf8_valid_utf8, encode_utf8_decode_utf8;

    let bs = encode_utf8(s);
    let n = bs.len() as u64;
    assert(enc_str(s) + rest =~= enc_u64(n) + (bs + rest));
    lemma_dec_u64(n, bs + rest);
    assert((bs + rest).take(n as int) =~= bs);
    assert((bs + rest).skip(n as int) =~= rest);
}

/// Reading an optional string back from its encoding.
proof fn lemma_dec_opt_str(o: Option<Seq<char>>, rest: Seq<u8>)
    requires
        o matches Some(s) ==> str_ok(s),
    ensures
        dec_opt_str(enc_opt_str(o) + rest) == Some((o, rest)),
{
    match o {
        None => {
            assert((enc_opt_str(o) + rest).skip(1) =~= rest);
        },
        Some(s) => {
            assert((enc_opt_str(o) + rest).skip(1) =~= enc_str(s) + rest);
            lemma_dec_str(s, rest);
        },
    }
}

/// Reading a boolean back from its encoding.
proof fn lemma_dec_bool(p: bool, rest: Seq<u8>)
    ensures
        dec_bool(enc_bool(p) + rest) == Some((p, rest)),
{
    assert((enc_bool(p) + rest).skip(1) =~= rest);
}

/// Reading a string list back from its encoding.
proof fn lemma_dec_strs(ss: Seq<Seq<char>>, rest: Seq<u8>)
    requires
        forall|i: int| 0 <= i < ss.len() ==> str_ok(#[trigger] ss[i]),
    ensures
        dec_strs(enc_str_list(ss) + rest, ss.len() as nat) == Some((ss, rest)),
    decreases ss.len(),
{
    if ss.len() == 0 {
        assert(enc_str_list(ss) + rest =~= rest);
        assert(dec_strs(rest, 0) == Some((Seq::<Seq<char>>::empty(), rest)));
        assert(ss =~= Seq::<Seq<char>>::empty());
    } else {
        let tail = ss.drop_first();
        assert(enc_str_list(ss) + rest =~= enc_str(ss[0]) + (enc_str_list(tail) + rest));
        lemma_dec_str(ss[0], enc_str_list(tail) + rest);
        lemma_dec_strs(tail, rest);
        assert(seq![ss[0]] + tail =~= ss);
    }
}

/// The round trip: deserializing a serialized message gives the message back,
/// so serializing again is byte-identical.
pub proof fn lemma_message_round_trip(m: MessageV)
    requires
        msg_bounded(m),
    ensures
        msg_of(msg_bytes(m)) == Some(m),
{
    let b = msg_bytes(m);
    match m {
        MessageV::CreateIndex { uid, primary_key } => {
            assert(b.skip(1) =~= enc_opt_str(uid) + (enc_opt_str(primary_key) + Seq::empty()));
            lemma_dec_opt_str(uid, enc_opt_str(primary_key) + Seq::empty());
            assert(enc_opt_str(primary_key) + Seq::<u8>::empty() =~= enc_opt_str(primary_key) + Seq::<u8>::empty());
            lemma_dec_opt_str(primary_key, Seq::empty());
        },
        MessageV::UpdateIndex { index_uid, update } => {
            assert(b.skip(1) =~= enc_str(index_uid) + (enc_str(update) + Seq::empty()));
            lemma_dec_str(index_uid, enc_str(update) + Seq::empty());
            lemma_dec_str(update, Seq::empty());
        },
        MessageV::DeleteIndex { index_uid } => {
            assert(b.skip(1) =~= enc_str(index_uid) + Seq::empty());
            lemma_dec_str(index_uid, Seq::empty());
        },
        MessageV::DocumentAddition { update_query, index_uid, documents, partial } => {
            assert(b.skip(1) =~= enc_str(update_query)
                + (enc_str(index_uid) + (enc_str(documents) + (enc_bool(partial) + Seq::empty()))));
            lemma_dec_str(update_query, enc_str(index_uid) + (enc_str(documents) + (enc_bool(partial) + Seq::empty())));
            lemma_dec_str(index_uid, enc_str(documents) + (enc_bool(partial) + Seq::empty()));
            lemma_dec_str(documents, enc_bool(partial) + Seq::empty());
            lemma_dec_bool(partial, Seq::empty());
        },
        MessageV::DocumentsDeletion { index_uid, ids } => {
            assert(b.skip(1) =~= enc_str(index_uid)
                + (enc_u64(ids.len() as u64) + (enc_str_list(ids) + Seq::empty())));
            lemma_dec_str(index_uid, enc_u64(ids.len() as u64) + (enc_str_list(ids) + Seq::empty()));
            lemma_dec_u64(ids.len() as u64, enc_str_list(ids) + Seq::empty());
            lemma_dec_strs(ids, Seq::empty());
        },
        MessageV::ClearAllDocuments { index_uid } => {
            assert(b.skip(1) =~= enc_str(index_uid) + Seq::empty());
            lemma_dec_str(index_uid, Seq::empty());
        },
        MessageV::SettingsUpdate { index_uid, update } => {
            assert(b.skip(1) =~= enc_str(index_uid) + (enc_str(update) + Seq::empty()));
            lemma_dec_str(index_uid, enc_str(update) + Seq::empty());
            lemma_dec_str(update, Seq::empty());
        },
    }
}

/// Byte identity of serialize, deserialize, serialize.
pub proof fn lemma_reserialize_identical(m: MessageV)
    requires
        msg_bounded(m),
    ensures
        msg_of(msg_bytes(m)) matches Some(m2) && msg_bytes(m2) == msg_bytes(m),
{
    lemma_message_round_trip(m);
}


/// Append the encoding of a u64.
fn write_u64(out: &mut Vec<u8>, x: u64)
    ensures
        final(out)@ == old(out)@ + enc_u64(x),
{
    let mut bs = u64_to_le_bytes(x);
    out.append(&mut bs);
}

/// Append the encoding of a string.
fn write_str(out: &mut Vec<u8>, s: &str)
    ensures
        final(out)@ == old(out)@ + enc_str(s@),
{
    let bs = s.as_bytes();
    proof {
        assert(bs@ == encode_utf8(s@));
    }
    write_u64(out, bs.len() as u64);
    let ghost mid = out@;
    let mut i: usize = 0;
    while i < bs.len()
        invariant
            i <= bs@.len(),
            out@ == mid + bs@.take(i as int),
        decreases bs@.len() - i,
    {
        out.push(bs[i]);
        i = i + 1;
        proof {
            assert(out@ =~= mid + bs@.take(i as int));
        }
    }
    proof {
        assert(bs@.take(bs@.len() as int) =~= bs@);
        assert(out@ =~= old(out)@ + enc_str(s@));
    }
}

/// Append the encoding of an optional string.
fn write_opt_str(out: &mut Vec<u8>, o: &Option<String>)
    ensures
        final(out)@ == old(out)@ + enc_opt_str(opt_str_view(*o)),
{
    match o {
        None => {
            out.push(0u8);
            proof {
                assert(out@ =~= old(out)@ + enc_opt_str(opt_str_view(*o)));
            }
        },
        Some(s) => {
            out.push(1u8);
            write_str(out, s.as_str());
            proof {
                assert(out@ =~= old(out)@ + enc_opt_str(opt_str_view(*o)));
            }
        },
    }
}

/// Append the encoding of a boolean.
fn write_bool(out: &mut Vec<u8>, p: bool)
    ensures
        final(out)@ == old(out)@ + enc_bool(p),
{
    out.push(if p { 1u8 } else { 0u8 });
    proof {
        assert(out@ =~= old(out)@ + enc_bool(p));
    }
}

/// A string list grows at its end, one encoding at a time.
proof fn lemma_enc_str_list_snoc(ss: Seq<Seq<char>>, i: int)
    requires
        0 <= i < ss.len(),
    ensures
        enc_str_list(ss.take(i + 1)) == enc_str_list(ss.take(i)) + enc_str(ss[i]),
    decreases i,
{
    if i == 0 {
        assert(ss.take(1).drop_first() =~= Seq::<Seq<char>>::empty());
        assert(ss.take(1)[0] == ss[0]);
        assert(ss.take(0) =~= Seq::<Seq<char>>::empty());
        assert(enc_str_list(ss.take(1)) =~= enc_str_list(ss.take(0)) + enc_str(ss[0]));
    } else {
        let tail = ss.drop_first();
        lemma_enc_str_list_snoc(tail, i - 1);
        assert(ss.take(i + 1).drop_first() =~= tail.take(i));
        assert(ss.take(i).drop_first() =~= tail.take(i - 1));
        assert(ss.take(i + 1)[0] == ss[0]);
        assert(ss.take(i)[0] == ss[0]);
        assert(tail[i - 1] == ss[i]);
        assert(enc_str_list(ss.take(i + 1)) == enc_str(ss[0]) + enc_str_list(tail.take(i)));
        assert(enc_str_list(ss.take(i)) == enc_str(ss[0]) + enc_str_list(tail.take(i - 1)));
        assert(enc_str(ss[0]) + (enc_str_list(tail.take(i - 1)) + enc_str(ss[i]))
            =~= (enc_str(ss[0]) + enc_str_list(tail.take(i - 1))) + enc_str(ss[i]));
    }
}

/// Append the encodings of every string in the vector, in order.
fn write_strs(out: &mut Vec<u8>, ids: &Vec<String>)
    ensures
        final(out)@ == old(out)@ + enc_str_list(strs_view(*ids)),
{
    let ghost vs = strs_view(*ids);
    proof {
        assert(vs.take(0) =~= Seq::<Seq<char>>::empty());
    }
    let mut i: usize = 0;
    while i < ids.len()
        invariant
            i <= ids@.len(),
            vs == strs_view(*ids),
            vs.len() == ids@.len(),
            out@ == old(out)@ + enc_str_list(vs.take(i as int)),
        decreases ids@.len() - i,
    {
        write_str(out, ids[i].as_str());
        proof {
            assert(vs[i as int] == ids@[i as int]@);
            lemma_enc_str_list_snoc(vs, i as int);
            assert(old(out)@ + (enc_str_list(vs.take(i as int)) + enc_str(vs[i as int]))
                =~= (old(out)@ + enc_str_list(vs.take(i as int))) + enc_str(vs[i as int]));
        }
        i = i + 1;
    }
    proof {
        assert(vs.take(vs.len() as int) =~= vs);
    }
}

/// Serialize a command message into its stable byte encoding.
pub fn encode_message(m: &Message) -> (r: Vec<u8>)
    ensures
        r@ == msg_bytes(m@),
{
    let mut out: Vec<u8> = Vec::new();
    match m {
        Message::CreateIndex { uid, primary_key } => {
            out.push(0u8);
            write_opt_str(&mut out, uid);
            write_opt_str(&mut out, primary_key);
            proof {
                assert(out@ =~= msg_bytes(m@));
            }
        },
        Message::UpdateIndex { index_uid, update } => {
            out.push(1u8);
            write_str(&mut out, index_uid.as_str());
            write_str(&mut out, update.as_str());
            proof {
                assert(out@ =~= msg_bytes(m@));
            }
        },
        Message::DeleteIndex { index_uid } => {
            out.push(2u8);
            write_str(&mut out, index_uid.as_str());
            proof {
                assert(out@ =~= msg_bytes(m@));
            }
        },
        Message::DocumentAddition { update_query, index_uid, documents, partial } => {
            out.push(3u8);
            write_str(&mut out, update_query.as_str());
            write_str(&mut out, index_uid.as_str());
            write_str(&mut out, documents.as_str());
            write_bool(&mut out, *partial);
            proof {
                assert(out@ =~= msg_bytes(m@));
            }
        },
        Message::DocumentsDeletion { index_uid, ids } => {
            out.push(4u8);
            write_str(&mut out, index_uid.as_str());
            write_u64(&mut out, ids.len() as u64);
            write_strs(&mut out, ids);
            proof {
                assert(strs_view(*ids).len() == ids@.len());
                assert(out@ =~= msg_bytes(m@));
            }
        },
        Message::ClearAllDocuments { index_uid } => {
            out.push(5u8);
            write_str(&mut out, index_uid.as_str());
            proof {
                assert(out@ =~= msg_bytes(m@));
            }
        },
        Message::SettingsUpdate { index_uid, update } => {
            out.push(6u8);
            write_str(&mut out, index_uid.as_str());
            write_str(&mut out, update.as_str());
            proof {
                assert(out@ =~= msg_bytes(m@));
            }
        },
    }
    out
}

/// Read a u64 at `pos`; on success the new position follows it.
fn read_u64(b: &Vec<u8>, pos: usize) -> (r: Option<(u64, usize)>)
    requires
        pos <= b@.len(),
    ensures
        (match r {
            Some(p) => p.1 <= b@.len()
                && dec_u64(b@.skip(pos as int)) == Some((p.0, b@.skip(p.1 as int))),
            None => dec_u64(b@.skip(pos as int)) is None,
        }),
{
    if b.len() - pos >= 8 {
        let n0: usize = b.len();
        let mut tmp: Vec<u8> = Vec::new();
        let mut i: usize = 0;
        while i < 8
            invariant
                i <= 8,
                pos + 8 <= n0,
                n0 == b@.len(),
                tmp@ == b@.subrange(pos as int, pos + i),
            decreases 8 - i,
        {
            tmp.push(b[pos + i]);
            i = i + 1;
            proof {
                assert(tmp@ =~= b@.subrange(pos as int, pos + i));
            }
        }
        let x = u64_from_le_bytes(tmp.as_slice());
        proof {
            assert(b@.skip(pos as int).take(8) =~= tmp@);
            assert(b@.skip(pos as int).skip(8) =~= b@.skip(pos + 8));
        }
        Some((x, pos + 8))
    } else {
        proof {
            assert(b@.skip(pos as int).len() < 8);
        }
        None
    }
}

/// Read a length-prefixed UTF-8 string at `pos`.
fn read_string(b: &Vec<u8>, pos: usize) -> (r: Option<(String, usize)>)
    requires
        pos <= b@.len(),
    ensures
        (match r {
            Some(p) => p.1 <= b@.len()
                && (dec_str(b@.skip(pos as int)) matches Some(q)
                    && q.0 == p.0@ && q.1 == b@.skip(p.1 as int)),
            None => dec_str(b@.skip(pos as int)) is None,
        }),
{
    broadcast use encode_utf8_decode_utf8;

    match read_u64(b, pos) {
        Some((n, p1)) => {
            if n > (b.len() - p1) as u64 {
                proof {
                    assert(b@.skip(p1 as int).len() < n);
                }
                None
            } else {
                let nn = n as usize;
                let n0: usize = b.len();
                let mut tmp: Vec<u8> = Vec::new();
                let mut i: usize = 0;
                while i < nn
                    invariant
                        i <= nn,
                        p1 + nn <= n0,
                        n0 == b@.len(),
                        tmp@ == b@.subrange(p1 as int, p1 + i),
                    decreases nn - i,
                {
                    tmp.push(b[p1 + i]);
                    i = i + 1;
                    proof {
                        assert(tmp@ =~= b@.subrange(p1 as int, p1 + i));
                    }
                }
                proof {
                    assert(b@.skip(p1 as int).take(n as int) =~= tmp@);
                    assert(b@.skip(p1 as int).skip(n as int) =~= b@.skip(p1 + nn));
                }
                match string_from_utf8(tmp) {
                    Some(s) => Some((s, p1 + nn)),
                    None => None,
                }
            }
        },
        None => None,
    }
}

/// Read an optional string at `pos`.
fn read_opt_string(b: &Vec<u8>, pos: usize) -> (r: Option<(Option<String>, usize)>)
    requires
        pos <= b@.len(),
    ensures
        (match r {
            Some(p) => p.1 <= b@.len()
                && (dec_opt_str(b@.skip(pos as int)) matches Some(q)
                    && q.0 == opt_str_view(p.0) && q.1 == b@.skip(p.1 as int)),
            None => dec_opt_str(b@.skip(pos as int)) is None,
        }),
{
    if pos >= b.len() {
        return None;
    }
    let tag = b[pos];
    proof {
        assert(b@.skip(pos as int)[0] == b@[pos as int]);
        assert(b@.skip(pos as int).skip(1) =~= b@.skip(pos + 1));
    }
    if tag == 0 {
        Some((None, pos + 1))
    } else if tag == 1 {
        match read_string(b, pos + 1) {
            Some((s, p)) => Some((Some(s), p)),
            None => None,
        }
    } else {
        None
    }
}

/// Read a boolean at `pos`.
fn read_bool(b: &Vec<u8>, pos: usize) -> (r: Option<(bool, usize)>)
    requires
        pos <= b@.len(),
    ensures
        (match r {
            Some(p) => p.1 <= b@.len()
                && dec_bool(b@.skip(pos as int)) == Some((p.0, b@.skip(p.1 as int))),
            None => dec_bool(b@.skip(pos as int)) is None,
        }),
{
    if pos >= b.len() {
        return None;
    }
    let tag = b[pos];
    proof {
        assert(b@.skip(pos as int)[0] == b@[pos as int]);
        assert(b@.skip(pos as int).skip(1) =~= b@.skip(pos + 1));
    }
    if tag == 0 {
        Some((false, pos + 1))
    } else if tag == 1 {
        Some((true, pos + 1))
    } else {
        None
    }
}

/// Read exactly `n` strings at `pos`.
fn read_strings(b: &Vec<u8>, pos: usize, n: u64) -> (r: Option<(Vec<String>, usize)>)
    requires
        pos <= b@.len(),
    ensures
        (match r {
            Some(p) => p.1 <= b@.len()
                && (dec_strs(b@.skip(pos as int), n as nat) matches Some(q)
                    && q.0 == strs_view(p.0) && q.1 == b@.skip(p.1 as int)),
            None => dec_strs(b@.skip(pos as int), n as nat) is None,
        }),
    decreases n,
{
    if n == 0 {
        let empty: Vec<String> = Vec::new();
        proof {
            assert(strs_view(empty) =~= Seq::<Seq<char>>::empty());
        }
        Some((empty, pos))
    } else {
        match read_string(b, pos) {
            Some((s, p1)) => match read_strings(b, p1, n - 1) {
                Some((mut ss, p2)) => {
                    let ghost tail_view = strs_view(ss);
                    let ghost pre = ss@;
                    ss.insert(0, s);
                    proof {
                        assert forall|j: int| 0 <= j < ss@.len()
                            implies strs_view(ss)[j] == (seq![s@] + tail_view)[j] by {
                            if j == 0 {
                                assert(ss@[0] == s);
                            } else {
                                assert(ss@[j] == pre[j - 1]);
                            }
                        }
                        assert(strs_view(ss) =~= seq![s@] + tail_view);
                    }
                    Some((ss, p2))
                },
                None => None,
            },
            None => None,
        }
    }
}

/// Deserialize a command message from its stable byte encoding.
pub fn decode_message(b: &Vec<u8>) -> (r: Option<Message>)
    ensures
        r is Some <==> msg_of(b@) is Some,
        r matches Some(m) ==> msg_of(b@) == Some(m@),
{
    if b.len() < 1 {
        return None;
    }
    let t = b[0];
    proof {
        assert(b@.skip(1) =~= b@.skip(1));
        assert(b@[0] == t);
    }
    if t == 0 {
        match read_opt_string(b, 1) {
            Some((uid, p1)) => match read_opt_string(b, p1) {
                Some((primary_key, p2)) => if p2 == b.len() {
                    Some(Message::CreateIndex { uid, primary_key })
                } else {
                    None
                },
                None => None,
            },
            None => None,
        }
    } else if t == 1 {
        match read_string(b, 1) {
            Some((index_uid, p1)) => match read_string(b, p1) {
                Some((update, p2)) => if p2 == b.len() {
                    Some(Message::UpdateIndex { index_uid, update })
                } else {
                    None
                },
                None => None,
            },
            None => None,
        }
    } else if t == 2 {
        match read_string(b, 1) {
            Some((index_uid, p1)) => if p1 == b.len() {
                Some(Message::DeleteIndex { index_uid })
            } else {
                None
            },
            None => None,
        }
    } else if t == 3 {
        match read_string(b, 1) {
            Some((update_query, p1)) => match read_string(b, p1) {
                Some((index_uid, p2)) => match read_string(b, p2) {
                    Some((documents, p3)) => match read_bool(b, p3) {
                        Some((partial, p4)) => if p4 == b.len() {
                            Some(Message::DocumentAddition { update_query, index_uid, documents, partial })
                        } else {
                            None
                        },
                        None => None,
                    },
                    None => None,
                },
                None => None,
            },
            None => None,
        }
    } else if t == 4 {
        match read_string(b, 1) {
            Some((index_uid, p1)) => match read_u64(b, p1) {
                Some((n, p2)) => match read_strings(b, p2, n) {
                    Some((ids, p3)) => if p3 == b.len() {
                        Some(Message::DocumentsDeletion { index_uid, ids })
                    } else {
                        None
                    },
                    None => None,
                },
                None => None,
            },
            None => None,
        }
    } else if t == 5 {
        match read_string(b, 1) {
            Some((index_uid, p1)) => if p1 == b.len() {
                Some(Message::ClearAllDocuments { index_uid })
            } else {
                None
            },
            None => None,
        }
    } else if t == 6 {
        match read_string(b, 1) {
            Some((index_uid, p1)) => match read_string(b, p1) {
                Some((update, p2)) => if p2 == b.len() {
                    Some(Message::SettingsUpdate { index_uid, update })
                } else {
                    None
                },
                None => None,
            },
            None => None,
        }
    } else {
        None
    }
}

} // verus!
