//! The wire protocol: a self-describing, validated binary encoding of
//! [`MessageData`].
//!
//! A message is encoded as a tag byte followed by its payload; a roster is
//! a little-endian count followed by length-prefixed UTF-8 names.  Decoding
//! validates everything before use: an unknown tag, a truncated payload,
//! trailing bytes, or an invalid UTF-8 name is a hard parse failure, never
//! a partial read.  The encoding is canonical: decoding succeeds on exactly
//! the byte strings that `into_bytes` produces, and reproduces the encoded
//! message.

use vstd::bytes::*;
use vstd::prelude::*;
use vstd::slice::{slice_subrange, slice_to_vec};
use vstd::string::StrSliceExecFns;
use vstd::utf8::{decode_utf8, encode_utf8, valid_utf8};

verus! {

/// Tag byte of a `Load` message.
pub const TAG_LOAD: u8 = 0;

/// Tag byte of a `Loaded` message.
pub const TAG_LOADED: u8 = 1;

/// Tag byte of a `ServerInfo` message.
pub const TAG_SERVER_INFO: u8 = 2;

/// A wire message.  `Load`: the host tells every client to enter loading.
/// `Loaded`: a client signals asset readiness; the host uses it to decide
/// when its own screen moves on.  `ServerInfo`: the host broadcasts the current roster of
/// display names, which replaces a client's cached roster verbatim.
#[derive(Clone, Debug, PartialEq)]
pub enum MessageData {
    Load,
    Loaded,
    ServerInfo { players: Vec<String> },
}

/// The mathematical shape of a wire message: names as character sequences.
pub enum MessageView {
    Load,
    Loaded,
    ServerInfo { players: Seq<Seq<char>> },
}

impl View for MessageData {
    type V = MessageView;

    open spec fn view(&self) -> MessageView {
        match self {
            MessageData::Load => MessageView::Load,
            MessageData::Loaded => MessageView::Loaded,
            MessageData::ServerInfo { players } => MessageView::ServerInfo {
                players: players.deep_view(),
            },
        }
    }
}

/// Decoding failed: the bytes are not the encoding of any message.  Fatal
/// for the connection that delivered them.
#[derive(Clone, Copy, Debug, PartialEq, Eq, Structural)]
pub enum ProtocolError {
    InvalidMessage,
}

/// Whether a message's counts fit the wire format's 64-bit length fields.
/// Every value built from in-memory vectors satisfies this.
pub open spec fn wf_message(m: MessageView) -> bool {
    match m {
        MessageView::Load => true,
        MessageView::Loaded => true,
        MessageView::ServerInfo { players } => {
            &&& players.len() <= u64::MAX
            &&& forall|i: int|
                0 <= i < players.len() ==> #[trigger] encode_utf8(players[i]).len() <= u64::MAX
        },
    }
}

/// Encoding of one roster name: UTF-8 byte length, then the UTF-8 bytes.
pub open spec fn spec_encode_name(name: Seq<char>) -> Seq<u8> {
    spec_u64_to_le_bytes(encode_utf8(name).len() as u64) + encode_utf8(name)
}

/// Encoding of a roster, name by name.
pub open spec fn spec_encode_names(names: Seq<Seq<char>>) -> Seq<u8>
    decreases names.len(),
{
    if names.len() == 0 {
        Seq::empty()
    } else {
        spec_encode_name(names[0]) + spec_encode_names(names.drop_first())
    }
}

/// The full encoding of a message.
pub open spec fn spec_encode(m: MessageView) -> Seq<u8> {
    match m {
        MessageView::Load => seq![TAG_LOAD],
        MessageView::Loaded => seq![TAG_LOADED],
        MessageView::ServerInfo { players } => seq![TAG_SERVER_INFO] + spec_u64_to_le_bytes(
            players.len() as u64,
        ) + spec_encode_names(players),
    }
}

/// Read a little-endian 64-bit length field.
pub open spec fn parse_u64(b: Seq<u8>) -> Option<(u64, Seq<u8>)> {
    if b.len() < 8 {
        None
    } else {
        Some((spec_u64_from_le_bytes(b.take(8)), b.skip(8)))
    }
}

/// Read one length-prefixed UTF-8 name.
pub open spec fn parse_name(b: Seq<u8>) -> Option<(Seq<char>, Seq<u8>)> {
    match parse_u64(b) {
        None => None,
        Some((len, rest)) => {
            if rest.len() < len {
                None
            } else {
                let name_bytes = rest.take(len as int);
                if valid_utf8(name_bytes) {
                    Some((decode_utf8(name_bytes), rest.skip(len as int)))
                } else {
                    None
                }
            }
        },
    }
}

/// Read exactly `n` names.
pub open spec fn parse_names(n: nat, b: Seq<u8>) -> Option<(Seq<Seq<char>>, Seq<u8>)>
    decreases n,
{
    if n == 0 {
        Some((Seq::empty(), b))
    } else {
        match parse_name(b) {
            None => None,
            Some((name, rest)) => {
                match parse_names((n - 1) as nat, rest) {
                    None => None,
                    Some((names, rest2)) => Some((seq![name] + names, rest2)),
                }
            },
        }
    }
}

/// The message a byte string decodes to, if it is a valid encoding: the
/// tag selects the variant, every length must be satisfied exactly, and no
/// trailing bytes may remain.
pub open spec fn spec_decode(b: Seq<u8>) -> Option<MessageView> {
    if b.len() == 0 {
        None
    } else if b[0] == TAG_LOAD {
        if b.len() == 1 {
            Some(MessageView::Load)
        } else {
            None
        }
    } else if b[0] == TAG_LOADED {
        if b.len() == 1 {
            Some(MessageView::Loaded)
        } else {
            None
        }
    } else if b[0] == TAG_SERVER_INFO {
        if b.len() < 9 {
            None
        } else {
            let count = spec_u64_from_le_bytes(b.subrange(1, 9));
            match parse_names(count as nat, b.skip(9)) {
                None => None,
                Some((names, rest)) => {
                    if rest.len() == 0 {
                        Some(MessageView::ServerInfo { players: names })
                    } else {
                        None
                    }
                },
            }
        }
    } else {
        None
    }
}

/// Relies on String::from_utf8: it returns a string exactly when the bytes
/// are valid UTF-8, and then decodes them.
#[verifier::external_body]
fn bytes_to_string(bytes: Vec<u8>) -> (r: Option<String>)
    ensures
        r is Some <==> valid_utf8(bytes@),
        r matches Some(s) ==> s@ == decode_utf8(bytes@),
{
    match String::from_utf8(bytes) {
        Ok(s) => Some(s),
        Err(_) => None,
    }
}

/// Appending a name to a roster appends its encoding.
pub proof fn lemma_encode_names_snoc(names: Seq<Seq<char>>, name: Seq<char>)
    ensures
        spec_encode_names(names.push(name)) == spec_encode_names(names) + spec_encode_name(name),
    decreases names.len(),
{
    if names.len() == 0 {
        assert(names.push(name)[0] == name);
        assert(names.push(name).drop_first() =~= Seq::<Seq<char>>::empty());
        assert(spec_encode_names(names.push(name)) == spec_encode_name(name)
            + spec_encode_names(Seq::<Seq<char>>::empty()));
        assert(spec_encode_name(name) + Seq::<u8>::empty() =~= spec_encode_name(name));
        assert(spec_encode_names(names) == Seq::<u8>::empty());
        assert(Seq::<u8>::empty() + spec_encode_name(name) =~= spec_encode_name(name));
    } else {
        assert(names.push(name)[0] == names[0]);
        assert(names.push(name).drop_first() =~= names.drop_first().push(name));
        lemma_encode_names_snoc(names.drop_first(), name);
        assert(spec_encode_names(names.push(name)) == spec_encode_name(names[0]) + (
        spec_encode_names(names.drop_first()) + spec_encode_name(name)));
        assert(spec_encode_name(names[0]) + (spec_encode_names(names.drop_first())
            + spec_encode_name(name)) =~= (spec_encode_name(names[0]) + spec_encode_names(
            names.drop_first(),
        )) + spec_encode_name(name));
    }
}

/// Reading a name off the front of its own encoding recovers it exactly
/// and consumes nothing further.
proof fn lemma_parse_name_of_encoding(name: Seq<char>, rest: Seq<u8>)
    requires
        encode_utf8(name).len() <= u64::MAX,
    ensures
        parse_name(spec_encode_name(name) + rest) == Some((name, rest)),
{
    broadcast use vstd::utf8::encode_utf8_valid_utf8, vstd::utf8::encode_utf8_decode_utf8;

    lemma_auto_spec_u64_to_from_le_bytes();
    let u = encode_utf8(name);
    let e = spec_u64_to_le_bytes(u.len() as u64);
    let b = spec_encode_name(name) + rest;
    assert(b.take(8) =~= e);
    assert(b.skip(8) =~= u + rest);
    assert((u + rest).take(u.len() as int) =~= u);
    assert((u + rest).skip(u.len() as int) =~= rest);
}

/// Reading `n` names off the front of their own encoding recovers them
/// exactly and consumes nothing further.
proof fn lemma_parse_names_of_encoding(names: Seq<Seq<char>>, rest: Seq<u8>)
    requires
        forall|i: int| 0 <= i < names.len() ==> #[trigger] encode_utf8(names[i]).len() <= u64::MAX,
    ensures
        parse_names(names.len(), spec_encode_names(names) + rest) == Some((names, rest)),
    decreases names.len(),
{
    if names.len() == 0 {
        assert(spec_encode_names(names) + rest =~= rest);
        assert(Seq::<Seq<char>>::empty() =~= names);
    } else {
        let e0 = spec_encode_name(names[0]);
        let tail = spec_encode_names(names.drop_first());
        assert(spec_encode_names(names) + rest =~= e0 + (tail + rest));
        lemma_parse_name_of_encoding(names[0], tail + rest);
        lemma_parse_names_of_encoding(names.drop_first(), rest);
        assert(seq![names[0]] + names.drop_first() =~= names);
    }
}

/// A parsed name is the only value its bytes could have encoded: the bytes
/// consumed are exactly its canonical encoding.
proof fn lemma_parse_name_canonical(b: Seq<u8>, name: Seq<char>, rest: Seq<u8>)
    requires
        parse_name(b) == Some((name, rest)),
    ensures
        b == spec_encode_name(name) + rest,
        encode_utf8(name).len() <= u64::MAX,
        rest.len() + 8 <= b.len(),
{
    lemma_auto_spec_u64_to_from_le_bytes();
    let len = spec_u64_from_le_bytes(b.take(8));
    let rest0 = b.skip(8);
    let name_bytes = rest0.take(len as int);
    vstd::utf8::decode_utf8_encode_utf8(name_bytes);
    assert(encode_utf8(name) == name_bytes);
    assert(spec_u64_to_le_bytes(spec_u64_from_le_bytes(b.take(8))) == b.take(8));
    assert(encode_utf8(name).len() as u64 == len);
    assert(b =~= b.take(8) + (name_bytes + rest0.skip(len as int)));
    assert(spec_encode_name(name) + rest =~= b.take(8) + (name_bytes + rest0.skip(len as int)));
}

/// A parsed roster is the only value its bytes could have encoded.
proof fn lemma_parse_names_canonical(n: nat, b: Seq<u8>, names: Seq<Seq<char>>, rest: Seq<u8>)
    requires
        parse_names(n, b) == Some((names, rest)),
    ensures
        b == spec_encode_names(names) + rest,
        names.len() == n,
        forall|i: int| 0 <= i < names.len() ==> #[trigger] encode_utf8(names[i]).len() <= u64::MAX,
    decreases n,
{
    if n == 0 {
        assert(names =~= Seq::<Seq<char>>::empty());
        assert(spec_encode_names(names) + rest =~= rest);
    } else {
        let (name0, rest0) = parse_name(b)->Some_0;
        let (tail_names, rest1) = parse_names((n - 1) as nat, rest0)->Some_0;
        lemma_parse_name_canonical(b, name0, rest0);
        lemma_parse_names_canonical((n - 1) as nat, rest0, tail_names, rest1);
        assert(names == seq![name0] + tail_names);
        assert(names[0] == name0);
        assert(names.drop_first() =~= tail_names);
        assert(b =~= spec_encode_name(name0) + (spec_encode_names(tail_names) + rest));
        assert(spec_encode_names(names) + rest =~= spec_encode_name(name0) + (spec_encode_names(
            tail_names,
        ) + rest));
    }
}

/// No strict prefix of an encoded roster parses: some length field always
/// demands bytes the prefix no longer has.
proof fn lemma_parse_names_truncated(names: Seq<Seq<char>>, j: int)
    requires
        forall|i: int| 0 <= i < names.len() ==> #[trigger] encode_utf8(names[i]).len() <= u64::MAX,
        0 <= j < spec_encode_names(names).len(),
    ensures
        parse_names(names.len(), spec_encode_names(names).take(j)) is None,
    decreases names.len(),
{
    lemma_auto_spec_u64_to_from_le_bytes();
    let e0 = spec_encode_name(names[0]);
    let u0 = encode_utf8(names[0]);
    let tail = spec_encode_names(names.drop_first());
    let t = spec_encode_names(names).take(j);
    assert(spec_encode_names(names) == e0 + tail);
    assert(e0.len() == 8 + u0.len());
    if j < 8 {
        assert(t.len() < 8);
    } else if j < e0.len() {
        assert(t.take(8) =~= spec_u64_to_le_bytes(u0.len() as u64));
        assert(t.skip(8).len() < u0.len() as u64);
    } else {
        let j1 = j - e0.len();
        assert(t =~= e0 + tail.take(j1));
        lemma_parse_name_of_encoding(names[0], tail.take(j1));
        lemma_parse_names_truncated(names.drop_first(), j1);
    }
}

/// Round trip: decoding an encoded message reproduces it exactly.
pub proof fn lemma_message_round_trip(m: MessageView)
    requires
        wf_message(m),
    ensures
        spec_decode(spec_encode(m)) == Some(m),
{
    let b = spec_encode(m);
    match m {
        MessageView::Load => {},
        MessageView::Loaded => {},
        MessageView::ServerInfo { players } => {
            lemma_auto_spec_u64_to_from_le_bytes();
            let count_bytes = spec_u64_to_le_bytes(players.len() as u64);
            assert(b.subrange(1, 9) =~= count_bytes);
            assert(b.skip(9) =~= spec_encode_names(players) + Seq::<u8>::empty());
            lemma_parse_names_of_encoding(players, Seq::<u8>::empty());
        },
    }
}

/// Canonicity: a byte string decodes only to the message it is the exact
/// encoding of.  Any corrupted variant of an encoding therefore either
/// fails validation or is itself a complete, canonical encoding.
pub proof fn lemma_decode_canonical(b: Seq<u8>, m: MessageView)
    requires
        spec_decode(b) == Some(m),
    ensures
        b == spec_encode(m),
        wf_message(m),
{
    if b[0] == TAG_LOAD {
        assert(b =~= spec_encode(m));
    } else if b[0] == TAG_LOADED {
        assert(b =~= spec_encode(m));
    } else {
        lemma_auto_spec_u64_to_from_le_bytes();
        let count = spec_u64_from_le_bytes(b.subrange(1, 9));
        let (names, rest) = parse_names(count as nat, b.skip(9))->Some_0;
        lemma_parse_names_canonical(count as nat, b.skip(9), names, rest);
        assert(rest =~= Seq::<u8>::empty());
        assert(b.skip(9) =~= spec_encode_names(names) + rest);
        assert(spec_encode_names(names) + rest =~= spec_encode_names(names));
        assert(names.len() as u64 == count);
        assert(spec_u64_to_le_bytes(spec_u64_from_le_bytes(b.subrange(1, 9))) == b.subrange(1, 9));
        assert(b =~= seq![TAG_SERVER_INFO] + spec_u64_to_le_bytes(names.len() as u64)
            + spec_encode_names(names));
    }
}

/// Truncation is rejected: no strict prefix of an encoding decodes.
pub proof fn lemma_truncation_rejected(m: MessageView, k: int)
    requires
        wf_message(m),
        0 <= k < spec_encode(m).len(),
    ensures
        spec_decode(spec_encode(m).take(k)) is None,
{
    let b = spec_encode(m);
    let t = b.take(k);
    match m {
        MessageView::Load => {},
        MessageView::Loaded => {},
        MessageView::ServerInfo { players } => {
            if k == 0 {
            } else if k < 9 {
                assert(t[0] == TAG_SERVER_INFO);
                assert(t.len() < 9);
            } else {
                lemma_auto_spec_u64_to_from_le_bytes();
                assert(t[0] == TAG_SERVER_INFO);
                assert(t.subrange(1, 9) =~= spec_u64_to_le_bytes(players.len() as u64));
                let count = spec_u64_from_le_bytes(t.subrange(1, 9));
                assert(count as nat == players.len());
                let names_enc = spec_encode_names(players);
                assert(t.skip(9) =~= names_enc.take(k - 9));
                if players.len() == 0 {
                    assert(names_enc.len() == 0);
                    assert(false);
                } else {
                    lemma_parse_names_truncated(players, k - 9);
                }
            }
        },
    }
}

impl MessageData {
    /// Encode this message for the wire.  The encoding is bit-stable: it
    /// depends only on the message value.
    pub fn into_bytes(&self) -> (r: Vec<u8>)
        ensures
            r@ == spec_encode(self@),
            wf_message(self@),
    {
        match self {
            MessageData::Load => {
                let mut out: Vec<u8> = Vec::new();
                out.push(TAG_LOAD);
                proof {
                    assert(out@ =~= spec_encode(self@));
                }
                out
            },
            MessageData::Loaded => {
                let mut out: Vec<u8> = Vec::new();
                out.push(TAG_LOADED);
                proof {
                    assert(out@ =~= spec_encode(self@));
                }
                out
            },
            MessageData::ServerInfo { players } => {
                let ghost dv = players.deep_view();
                let mut out: Vec<u8> = Vec::new();
                out.push(TAG_SERVER_INFO);
                let mut count_bytes = u64_to_le_bytes(players.len() as u64);
                out.append(&mut count_bytes);
                let ghost header = out@;
                let mut i: usize = 0;
                while i < players.len()
                    invariant
                        i <= players@.len(),
                        dv == players.deep_view(),
                        dv.len() == players@.len(),
                        out@ == header + spec_encode_names(dv.take(i as int)),
                        forall|j: int|
                            0 <= j < i ==> #[trigger] encode_utf8(dv[j]).len() <= u64::MAX,
                    decreases players@.len() - i,
                {
                    let name = &players[i];
                    let mut name_bytes = name.as_str().as_bytes_vec();
                    let mut len_bytes = u64_to_le_bytes(name_bytes.len() as u64);
                    out.append(&mut len_bytes);
                    out.append(&mut name_bytes);
                    proof {
                        assert(dv[i as int] == players@[i as int]@);
                        assert(dv.take(i + 1) =~= dv.take(i as int).push(dv[i as int]));
                        lemma_encode_names_snoc(dv.take(i as int), dv[i as int]);
                    }
                    i = i + 1;
                }
                proof {
                    assert(dv.take(players@.len() as int) =~= dv);
                    assert(out@ =~= spec_encode(self@));
                }
                out
            },
        }
    }

    /// Decode a wire payload.  Succeeds exactly on the canonical encodings
    /// that [`MessageData::into_bytes`] produces; anything else — unknown
    /// tag, truncation, trailing bytes, a length that overruns the payload,
    /// or invalid UTF-8 in a name — is rejected as a whole.
    pub fn from_bytes(bytes: &[u8]) -> (r: Result<MessageData, ProtocolError>)
        ensures
            r matches Ok(m) ==> spec_decode(bytes@) == Some(m@),
            r is Err ==> spec_decode(bytes@) is None,
    {
        let n = bytes.len();
        if n == 0 {
            return Err(ProtocolError::InvalidMessage);
        }
        let tag = *vstd::slice::slice_index_get(bytes, 0);
        if tag == TAG_LOAD {
            if n == 1 {
                Ok(MessageData::Load)
            } else {
                Err(ProtocolError::InvalidMessage)
            }
        } else if tag == TAG_LOADED {
            if n == 1 {
                Ok(MessageData::Loaded)
            } else {
                Err(ProtocolError::InvalidMessage)
            }
        } else if tag == TAG_SERVER_INFO {
            if n < 9 {
                return Err(ProtocolError::InvalidMessage);
            }
            let count_slice = slice_subrange(bytes, 1, 9);
            let count = u64_from_le_bytes(count_slice);
            proof {
                assert(count_slice@ =~= bytes@.subrange(1, 9));
            }
            let mut players: Vec<String> = Vec::new();
            let mut pos: usize = 9;
            let mut i: u64 = 0;
            while i < count
                invariant
                    9 <= pos <= n,
                    n == bytes@.len(),
                    i <= count,
                    count == spec_u64_from_le_bytes(bytes@.subrange(1, 9)),
                    parse_names(count as nat, bytes@.skip(9)) == (match parse_names(
                        (count - i) as nat,
                        bytes@.skip(pos as int),
                    ) {
                        None => None::<(Seq<Seq<char>>, Seq<u8>)>,
                        Some(pr) => Some((players.deep_view() + pr.0, pr.1)),
                    }),
                decreases count - i,
            {
                let ghost tail = bytes@.skip(pos as int);
                if n - pos < 8 {
                    proof {
                        assert(tail.len() < 8);
                        assert(parse_names((count - i) as nat, tail) is None);
                    }
                    return Err(ProtocolError::InvalidMessage);
                }
                let len_slice = slice_subrange(bytes, pos, pos + 8);
                let len = u64_from_le_bytes(len_slice);
                proof {
                    assert(len_slice@ =~= tail.take(8));
                }
                if ((n - (pos + 8)) as u64) < len {
                    proof {
                        assert(tail.skip(8).len() < len);
                        assert(parse_names((count - i) as nat, tail) is None);
                    }
                    return Err(ProtocolError::InvalidMessage);
                }
                let name_len = len as usize;
                let name_slice = slice_subrange(bytes, pos + 8, pos + 8 + name_len);
                let name_bytes = slice_to_vec(name_slice);
                proof {
                    assert(name_bytes@ =~= tail.skip(8).take(len as int));
                }
                match bytes_to_string(name_bytes) {
                    None => {
                        proof {
                            assert(parse_names((count - i) as nat, tail) is None);
                        }
                        return Err(ProtocolError::InvalidMessage);
                    },
                    Some(s) => {
                        let ghost players_before = players.deep_view();
                        players.push(s);
                        proof {
                            assert(players.deep_view() =~= players_before.push(s@));
                            assert(tail.skip(8).skip(len as int) =~= bytes@.skip(
                                pos + 8 + name_len,
                            ));
                            assert(parse_name(tail) == Some(
                                (s@, bytes@.skip(pos + 8 + name_len)),
                            ));
                            let next = parse_names(
                                (count - i - 1) as nat,
                                bytes@.skip(pos + 8 + name_len),
                            );
                            if next is Some {
                                let pr = next->Some_0;
                                assert(players_before + (seq![s@] + pr.0) =~= players.deep_view()
                                    + pr.0);
                            }
                        }
                        pos = pos + 8 + name_len;
                        i = i + 1;
                    },
                }
            }
            if pos == n {
                proof {
                    assert(bytes@.skip(pos as int).len() == 0);
                    assert(players.deep_view() + Seq::<Seq<char>>::empty() =~= players.deep_view());
                }
                Ok(MessageData::ServerInfo { players })
            } else {
                proof {
                    assert(bytes@.skip(pos as int).len() > 0);
                }
                Err(ProtocolError::InvalidMessage)
            }
        } else {
            Err(ProtocolError::InvalidMessage)
        }
    }
}

} // verus!
