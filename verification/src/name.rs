//! Domain names and character-strings on the wire.
//!
//! A name is a sequence of labels, each behind one byte that gives its
//! length, closed by a zero byte. Compression pointers are not understood:
//! every length byte is taken as a length. Labels are held as text, so a
//! label that is not UTF-8 is refused, although DNS itself allows any bytes.

use vstd::prelude::*;
use vstd::slice::slice_subrange;
use vstd::utf8::{encode_utf8, encode_utf8_decode_utf8, valid_utf8};
use crate::error::Error;

verus! {

/// The labels of a name as they stand on the wire, one byte sequence each.
pub open spec fn wire_labels(labels: Seq<String>) -> Seq<Seq<u8>> {
    Seq::new(labels.len(), |i: int| encode_utf8(labels[i]@))
}

/// A label that can be written and read back: UTF-8, 1 to 255 bytes.
pub open spec fn label_ok(label: Seq<u8>) -> bool {
    1 <= label.len() <= 255 && valid_utf8(label)
}

/// Every label of `labels` can be written and read back.
pub open spec fn labels_ok(labels: Seq<Seq<u8>>) -> bool {
    forall|i: int| 0 <= i < labels.len() ==> label_ok(#[trigger] labels[i])
}

/// The byte that stands for a length of `n` bytes.
pub open spec fn len_byte(n: nat) -> u8 {
    (n % 256) as u8
}

/// The labels one after the other, each behind its length byte.
pub open spec fn labels_wire(labels: Seq<Seq<u8>>) -> Seq<u8>
    decreases labels.len(),
{
    if labels.len() == 0 {
        Seq::empty()
    } else {
        seq![len_byte(labels[0].len())] + labels[0] + labels_wire(labels.drop_first())
    }
}

/// The name on the wire: its labels, then the zero byte that ends it.
pub open spec fn name_wire(labels: Seq<Seq<u8>>) -> Seq<u8> {
    labels_wire(labels) + seq![0u8]
}

/// A character-string on the wire: one length byte, then the bytes.
pub open spec fn character_string(data: Seq<u8>) -> Seq<u8> {
    seq![len_byte(data.len())] + data
}

/// `bytes` with `data` written over it from position `at` on.
pub open spec fn overwrite(bytes: Seq<u8>, at: int, data: Seq<u8>) -> Seq<u8>
    recommends
        0 <= at,
        at + data.len() <= bytes.len(),
{
    bytes.subrange(0, at) + data + bytes.subrange(at + data.len(), bytes.len() as int)
}

/// What reading a name at position `at` of `bytes` gives: its labels and the
/// position behind its closing zero byte, or the first fault met. The buffer
/// ending before the name does is a `PackingError`; a label that is not
/// UTF-8 is a `Utf8Error`.
pub open spec fn parse_name(bytes: Seq<u8>, at: int) -> Result<(Seq<Seq<u8>>, int), Error>
    decreases bytes.len() - at,
{
    if at < 0 || at >= bytes.len() {
        Err(Error::PackingError)
    } else if bytes[at] == 0 {
        Ok((Seq::empty(), at + 1))
    } else if at + 1 + bytes[at] > bytes.len() {
        Err(Error::PackingError)
    } else {
        let label = bytes.subrange(at + 1, at + 1 + bytes[at]);
        if !valid_utf8(label) {
            Err(Error::Utf8Error)
        } else {
            match parse_name(bytes, at + 1 + bytes[at]) {
                Ok((rest, end)) => Ok((seq![label] + rest, end)),
                Err(e) => Err(e),
            }
        }
    }
}

/// `outcome` with `before` put in front of its labels.
pub open spec fn after_labels(before: Seq<Seq<u8>>, outcome: Result<(Seq<Seq<u8>>, int), Error>)
    -> Result<(Seq<Seq<u8>>, int), Error> {
    match outcome {
        Ok((rest, end)) => Ok((before + rest, end)),
        Err(e) => Err(e),
    }
}

/// Reads the name that starts at position `at` of `buf`.
pub fn extract_labels(buf: &[u8], at: usize) -> (r: Result<(Vec<String>, usize), Error>)
    ensures
        match r {
            Ok((labels, next)) => parse_name(buf@, at as int) == Ok::<(Seq<Seq<u8>>, int), Error>(
                (wire_labels(labels@), next as int),
            ),
            Err(e) => parse_name(buf@, at as int) == Err::<(Seq<Seq<u8>>, int), Error>(e),
        },
{
    let mut labels: Vec<String> = Vec::new();
    let mut pos: usize = at;
    assert(wire_labels(labels@) =~= Seq::empty());
    assert(after_labels(Seq::empty(), parse_name(buf@, at as int)) == parse_name(buf@, at as int))
        by {
        match parse_name(buf@, at as int) {
            Ok((rest, end)) => {
                assert(Seq::<Seq<u8>>::empty() + rest =~= rest);
            },
            Err(e) => {},
        }
    }
    loop
        invariant
            parse_name(buf@, at as int) == after_labels(
                wire_labels(labels@),
                parse_name(buf@, pos as int),
            ),
        decreases buf@.len() - pos,
    {
        if pos >= buf.len() {
            return Err(Error::PackingError);
        }
        let n: usize = buf[pos] as usize;
        if n == 0 {
            assert(wire_labels(labels@) + Seq::<Seq<u8>>::empty() =~= wire_labels(labels@));
            return Ok((labels, pos + 1));
        }
        if buf.len() - pos - 1 < n {
            return Err(Error::PackingError);
        }
        let raw: &[u8] = slice_subrange(buf, pos + 1, pos + 1 + n);
        match core::str::from_utf8(raw) {
            Ok(text) => {
                let ghost before = wire_labels(labels@);
                labels.push(text.to_owned());
                proof {
                    assert(wire_labels(labels@) =~= before.push(raw@));
                    match parse_name(buf@, pos + 1 + n) {
                        Ok((rest, end)) => {
                            assert(before + (seq![raw@] + rest) =~= before.push(raw@) + rest);
                        },
                        Err(e) => {},
                    }
                }
            },
            Err(_) => {
                return Err(Error::Utf8Error);
            },
        }
        pos = pos + 1 + n;
    }
}

/// Writes `data` over `buf` from position `at` on.
pub fn put_bytes(buf: &mut [u8], at: usize, data: &[u8])
    requires
        at + data@.len() <= old(buf)@.len(),
    ensures
        final(buf)@ == overwrite(old(buf)@, at as int, data@),
{
    let room: usize = buf.len();
    let mut i: usize = 0;
    assert(buf@ =~= overwrite(old(buf)@, at as int, data@.take(0)));
    while i < data.len()
        invariant
            i <= data@.len(),
            buf@.len() == room,
            old(buf)@.len() == room,
            at + data@.len() <= room,
            buf@ == overwrite(old(buf)@, at as int, data@.take(i as int)),
        decreases data@.len() - i,
    {
        buf[at + i] = data[i];
        assert(buf@ =~= overwrite(old(buf)@, at as int, data@.take(i + 1)));
        i = i + 1;
    }
    assert(data@.take(i as int) =~= data@);
}

/// Adding a label at the end adds its length byte and its bytes at the end.
pub proof fn labels_wire_push(labels: Seq<Seq<u8>>, label: Seq<u8>)
    ensures
        labels_wire(labels.push(label)) == labels_wire(labels) + seq![len_byte(label.len())] + label,
    decreases labels.len(),
{
    if labels.len() == 0 {
        assert(labels.push(label).drop_first() =~= Seq::<Seq<u8>>::empty());
        assert(labels_wire(Seq::<Seq<u8>>::empty()) =~= Seq::<u8>::empty());
        assert(labels =~= Seq::<Seq<u8>>::empty());
        assert(labels_wire(labels.push(label)) =~= labels_wire(labels) + seq![len_byte(label.len())]
            + label);
    } else {
        labels_wire_push(labels.drop_first(), label);
        assert(labels.push(label).drop_first() =~= labels.drop_first().push(label));
        assert(labels_wire(labels.push(label)) =~= labels_wire(labels) + seq![len_byte(label.len())]
            + label);
    }
}

/// Writes the name made of `labels` at position `at` of `buf` and returns
/// the position behind it. Each label must fit its length byte and the name
/// must fit the buffer.
pub fn put_labels(buf: &mut [u8], at: usize, labels: &Vec<String>) -> (next: usize)
    requires
        forall|i: int| 0 <= i < labels@.len() ==> (#[trigger] wire_labels(labels@)[i]).len() <= 255,
        at + name_wire(wire_labels(labels@)).len() <= old(buf)@.len(),
    ensures
        next == at + name_wire(wire_labels(labels@)).len(),
        final(buf)@ == overwrite(old(buf)@, at as int, name_wire(wire_labels(labels@))),
{
    let ghost all = wire_labels(labels@);
    let room: usize = buf.len();
    let mut pos: usize = at;
    let mut i: usize = 0;
    proof {
        assert(all.take(0) =~= Seq::<Seq<u8>>::empty());
        assert(buf@ =~= overwrite(old(buf)@, at as int, labels_wire(all.take(0))));
    }
    while i < labels.len()
        invariant
            all == wire_labels(labels@),
            forall|k: int| 0 <= k < all.len() ==> (#[trigger] all[k]).len() <= 255,
            i <= labels@.len(),
            buf@.len() == room,
            room == old(buf)@.len(),
            at + labels_wire(all).len() + 1 <= room,
            pos == at + labels_wire(all.take(i as int)).len(),
            buf@ == overwrite(old(buf)@, at as int, labels_wire(all.take(i as int))),
        decreases labels@.len() - i,
    {
        let text: &str = labels[i].as_str();
        let raw: &[u8] = text.as_bytes();
        proof {
            assert(raw@ == all[i as int]);
            labels_wire_push(all.take(i as int), all[i as int]);
            assert(all.take(i as int).push(all[i as int]) =~= all.take(i + 1));
            assert(all.take(labels@.len() as int) =~= all);
            labels_wire_take_monotone(all, i + 1, labels@.len() as int);
        }
        let n: usize = raw.len();
        buf[pos] = n as u8;
        put_bytes(buf, pos + 1, raw);
        proof {
            assert(buf@ =~= overwrite(old(buf)@, at as int, labels_wire(all.take(i + 1))));
        }
        pos = pos + 1 + n;
        i = i + 1;
    }
    proof {
        assert(all.take(i as int) =~= all);
    }
    buf[pos] = 0;
    assert(buf@ =~= overwrite(old(buf)@, at as int, name_wire(all)));
    pos + 1
}

/// The first `n` labels take no more room than the first `m`, for `n <= m`.
proof fn labels_wire_take_monotone(labels: Seq<Seq<u8>>, n: int, m: int)
    requires
        0 <= n <= m <= labels.len(),
    ensures
        labels_wire(labels.take(n)).len() <= labels_wire(labels.take(m)).len(),
    decreases m - n,
{
    if n < m {
        labels_wire_take_monotone(labels, n + 1, m);
        labels_wire_push(labels.take(n), labels[n]);
        assert(labels.take(n).push(labels[n]) =~= labels.take(n + 1));
    }
}

/// Writes `string` as a character-string at position `at` of `buf` and
/// returns the position behind it. The string must fit its length byte and
/// the buffer.
pub fn put_character_string(buf: &mut [u8], at: usize, string: &str) -> (next: usize)
    requires
        string.len() <= 255,
        at + 1 + string.len() <= old(buf)@.len(),
    ensures
        next == at + 1 + encode_utf8(string@).len(),
        final(buf)@ == overwrite(old(buf)@, at as int, character_string(encode_utf8(string@))),
{
    let room: usize = buf.len();
    let raw: &[u8] = string.as_bytes();
    let n: usize = raw.len();
    buf[at] = n as u8;
    put_bytes(buf, at + 1, raw);
    assert(buf@ =~= overwrite(old(buf)@, at as int, character_string(encode_utf8(string@))));
    at + 1 + n
}

/// A name that was read stands, byte for byte, where it was read: writing
/// the labels again gives the bytes between the start and the end of the
/// name. Each label read is UTF-8 of 1 to 255 bytes.
pub proof fn parse_name_reads_its_wire(bytes: Seq<u8>, at: int)
    requires
        parse_name(bytes, at) is Ok,
    ensures
        ({
            let (labels, end) = parse_name(bytes, at)->Ok_0;
            &&& 0 <= at < end <= bytes.len()
            &&& labels_ok(labels)
            &&& name_wire(labels) == bytes.subrange(at, end)
        }),
    decreases bytes.len() - at,
{
    let (labels, end) = parse_name(bytes, at)->Ok_0;
    if bytes[at] == 0 {
        assert(labels_wire(labels) =~= Seq::<u8>::empty());
        assert(name_wire(labels) =~= bytes.subrange(at, end));
    } else {
        let n = bytes[at] as int;
        let label = bytes.subrange(at + 1, at + 1 + n);
        parse_name_reads_its_wire(bytes, at + 1 + n);
        let (rest, rest_end) = parse_name(bytes, at + 1 + n)->Ok_0;
        assert(labels == seq![label] + rest);
        assert(labels.drop_first() =~= rest);
        assert(labels[0] == label);
        assert forall|i: int| 0 <= i < labels.len() implies label_ok(#[trigger] labels[i]) by {
            if i > 0 {
                assert(labels[i] == rest[i - 1]);
            }
        }
        assert(end == rest_end);
        assert(label.len() == n);
        assert(len_byte(label.len()) == bytes[at]);
        assert(labels_wire(labels) == seq![bytes[at]] + label + labels_wire(rest));
        assert(name_wire(rest) == bytes.subrange(at + 1 + n, end));
        assert(name_wire(labels) =~= seq![bytes[at]] + label + name_wire(rest));
        assert(seq![bytes[at]] + label + bytes.subrange(at + 1 + n, end) =~= bytes.subrange(
            at,
            end,
        ));
    }
}

/// Where the labels `labels` stand at position `at`, reading a name there
/// reads them and goes on behind them.
pub proof fn parse_name_skips_labels(bytes: Seq<u8>, at: int, labels: Seq<Seq<u8>>)
    requires
        labels_ok(labels),
        0 <= at,
        at + labels_wire(labels).len() <= bytes.len(),
        bytes.subrange(at, at + labels_wire(labels).len()) == labels_wire(labels),
    ensures
        parse_name(bytes, at) == after_labels(
            labels,
            parse_name(bytes, at + labels_wire(labels).len()),
        ),
    decreases labels.len(),
{
    let behind = parse_name(bytes, at + labels_wire(labels).len());
    if labels.len() == 0 {
        match behind {
            Ok((rest, end)) => {
                assert(labels + rest =~= rest);
            },
            Err(e) => {},
        }
    } else {
        let first = labels[0];
        let others = labels.drop_first();
        let n = first.len() as int;
        let whole = labels_wire(labels);
        assert(label_ok(first));
        assert(whole == seq![len_byte(first.len())] + first + labels_wire(others));
        assert(bytes[at] == bytes.subrange(at, at + whole.len())[0]);
        assert(bytes[at] == n);
        assert(bytes.subrange(at + 1, at + 1 + n) =~= first) by {
            assert forall|k: int| 0 <= k < n implies bytes.subrange(at + 1, at + 1 + n)[k]
                == first[k] by {
                assert(bytes[at + 1 + k] == bytes.subrange(at, at + whole.len())[1 + k]);
            }
        }
        assert(bytes.subrange(at + 1 + n, at + 1 + n + labels_wire(others).len()) =~= labels_wire(
            others,
        )) by {
            assert forall|k: int| 0 <= k < labels_wire(others).len() implies bytes.subrange(
                at + 1 + n,
                at + 1 + n + labels_wire(others).len(),
            )[k] == labels_wire(others)[k] by {
                assert(bytes[at + 1 + n + k] == bytes.subrange(at, at + whole.len())[1 + n + k]);
            }
        }
        assert forall|i: int| 0 <= i < others.len() implies label_ok(#[trigger] others[i]) by {
            assert(others[i] == labels[i + 1]);
        }
        parse_name_skips_labels(bytes, at + 1 + n, others);
        match behind {
            Ok((rest, end)) => {
                assert(seq![first] + (others + rest) =~= labels + rest);
            },
            Err(e) => {},
        }
    }
}

/// Reading a name that was written gives its labels back, and ends right
/// behind the name, whatever follows it.
pub proof fn name_round_trip(bytes: Seq<u8>, at: int, labels: Seq<Seq<u8>>)
    requires
        labels_ok(labels),
        0 <= at,
        at + name_wire(labels).len() <= bytes.len(),
        bytes.subrange(at, at + name_wire(labels).len()) == name_wire(labels),
    ensures
        parse_name(bytes, at) == Ok::<(Seq<Seq<u8>>, int), Error>(
            (labels, at + name_wire(labels).len()),
        ),
{
    let body = labels_wire(labels);
    let whole = name_wire(labels);
    assert(bytes.subrange(at, at + body.len()) =~= body) by {
        assert forall|k: int| 0 <= k < body.len() implies bytes.subrange(at, at + body.len())[k]
            == body[k] by {
            assert(bytes[at + k] == bytes.subrange(at, at + whole.len())[k]);
        }
    }
    parse_name_skips_labels(bytes, at, labels);
    assert(bytes[at + body.len()] == bytes.subrange(at, at + whole.len())[body.len() as int]);
    assert(labels + Seq::<Seq<u8>>::empty() =~= labels);
}

/// A name is refused as malformed where, behind labels that read well, the
/// buffer ends or a length byte claims more bytes than remain.
pub proof fn truncated_name_is_malformed(bytes: Seq<u8>, at: int, labels: Seq<Seq<u8>>)
    requires
        labels_ok(labels),
        0 <= at,
        at + labels_wire(labels).len() <= bytes.len(),
        bytes.subrange(at, at + labels_wire(labels).len()) == labels_wire(labels),
        ({
            let stop = at + labels_wire(labels).len();
            stop == bytes.len() || (bytes[stop] != 0 && stop + 1 + bytes[stop] > bytes.len())
        }),
    ensures
        parse_name(bytes, at) == Err::<(Seq<Seq<u8>>, int), Error>(Error::PackingError),
{
    parse_name_skips_labels(bytes, at, labels);
}

/// Writing `more` right behind `data` is writing the two as one.
pub proof fn overwrite_behind(bytes: Seq<u8>, data: Seq<u8>, more: Seq<u8>)
    requires
        data.len() + more.len() <= bytes.len(),
    ensures
        overwrite(overwrite(bytes, 0, data), data.len() as int, more) == overwrite(
            bytes,
            0,
            data + more,
        ),
{
    assert(overwrite(overwrite(bytes, 0, data), data.len() as int, more) =~= overwrite(
        bytes,
        0,
        data + more,
    ));
}

/// Writing `data` at the start is writing `data` and, behind it, the bytes
/// that stand there already.
pub proof fn overwrite_through(bytes: Seq<u8>, data: Seq<u8>, end: int)
    requires
        data.len() <= end <= bytes.len(),
    ensures
        overwrite(bytes, 0, data) == overwrite(
            bytes,
            0,
            data + bytes.subrange(data.len() as int, end),
        ),
{
    assert(overwrite(bytes, 0, data) =~= overwrite(
        bytes,
        0,
        data + bytes.subrange(data.len() as int, end),
    ));
}

/// Whatever is wrong with a name, it is reported as malformed bytes.
pub proof fn name_faults_are_malformed(bytes: Seq<u8>, at: int)
    ensures
        parse_name(bytes, at) matches Err(e) ==> e.is_malformed(),
    decreases bytes.len() - at,
{
    if 0 <= at < bytes.len() && bytes[at] != 0 && at + 1 + bytes[at] <= bytes.len() {
        name_faults_are_malformed(bytes, at + 1 + bytes[at]);
    }
}

/// Labels are told apart by their bytes: names that are the same on the
/// wire are the same text, label for label.
pub proof fn wire_labels_determine_text(a: Seq<String>, b: Seq<String>)
    requires
        wire_labels(a) == wire_labels(b),
    ensures
        a.len() == b.len(),
        forall|i: int| 0 <= i < a.len() ==> a[i]@ == b[i]@,
{
    assert(wire_labels(a).len() == a.len());
    assert(wire_labels(b).len() == b.len());
    assert forall|i: int| 0 <= i < a.len() implies a[i]@ == b[i]@ by {
        assert(wire_labels(a)[i] == wire_labels(b)[i]);
        encode_utf8_decode_utf8(a[i]@);
        encode_utf8_decode_utf8(b[i]@);
    }
}

} // verus!
