//! Sequences, sequential composition of fields, and the sized frame.
use vstd::prelude::*;
use crate::protocol::KafkaSerializable;
use crate::reader::Reader;
use crate::types::{ErrorKind, KafkaError};
use crate::wire::i32_to_be;

verus! {

/// The models of the elements of `v`, in order.
pub open spec fn models<T: KafkaSerializable>(v: Seq<T>) -> Seq<T::Model> {
    v.map_values(|e: T| e.model())
}

/// The encodings of the elements of `ms`, one after the other.
pub open spec fn elems_wire<T: KafkaSerializable>(ms: Seq<T::Model>) -> Seq<u8>
    decreases ms.len(),
{
    if ms.len() == 0 {
        Seq::empty()
    } else {
        elems_wire::<T>(ms.drop_last()) + T::wire(ms.last())
    }
}

/// Reading `count` elements one after the other from the start of `input`.
pub open spec fn parse_elems<T: KafkaSerializable>(input: Seq<u8>, count: nat) -> Result<
    (Seq<T::Model>, int),
    ErrorKind,
>
    decreases count,
{
    if count == 0 {
        Ok((Seq::empty(), 0))
    } else {
        match parse_elems::<T>(input, (count - 1) as nat) {
            Err(k) => Err(k),
            Ok((ms, k)) => match T::parse(input.skip(k)) {
                Err(e) => Err(e),
                Ok((m, n)) => Ok((ms.push(m), k + n)),
            },
        }
    }
}

proof fn lemma_elems_len<T: KafkaSerializable>(input: Seq<u8>, count: nat)
    ensures
        parse_elems::<T>(input, count) is Ok ==> 0 <= parse_elems::<T>(input, count)->Ok_0.1
            <= input.len(),
    decreases count,
{
    if count > 0 {
        lemma_elems_len::<T>(input, (count - 1) as nat);
        if let Ok((_, k)) = parse_elems::<T>(input, (count - 1) as nat) {
            T::lemma_parse_len(input.skip(k));
        }
    }
}

proof fn lemma_elems_extend<T: KafkaSerializable>(input: Seq<u8>, extra: Seq<u8>, count: nat)
    requires
        parse_elems::<T>(input, count) is Ok,
    ensures
        parse_elems::<T>(input + extra, count) == parse_elems::<T>(input, count),
    decreases count,
{
    if count > 0 {
        let prev = parse_elems::<T>(input, (count - 1) as nat);
        lemma_elems_extend::<T>(input, extra, (count - 1) as nat);
        lemma_elems_len::<T>(input, (count - 1) as nat);
        let k = prev->Ok_0.1;
        assert((input + extra).skip(k) =~= input.skip(k) + extra);
        T::lemma_parse_extend(input.skip(k), extra);
    }
}

/// Once reading elements fails, reading more of them fails the same way.
proof fn lemma_elems_fail<T: KafkaSerializable>(input: Seq<u8>, count: nat, more: nat)
    requires
        parse_elems::<T>(input, count) is Err,
        count <= more,
    ensures
        parse_elems::<T>(input, more) == parse_elems::<T>(input, count),
    decreases more - count,
{
    if count < more {
        lemma_elems_fail::<T>(input, count, (more - 1) as nat);
    }
}

proof fn lemma_elems_round_trip<T: KafkaSerializable>(ms: Seq<T::Model>, rest: Seq<u8>)
    requires
        forall|i: int| 0 <= i < ms.len() ==> T::valid(#[trigger] ms[i]),
    ensures
        parse_elems::<T>(elems_wire::<T>(ms) + rest, ms.len()) == Ok::<(Seq<T::Model>, int), ErrorKind>(
            (ms, elems_wire::<T>(ms).len() as int),
        ),
    decreases ms.len(),
{
    if ms.len() > 0 {
        let init = ms.drop_last();
        let last = ms.last();
        let w = elems_wire::<T>(init);
        let wl = T::wire(last);
        assert(init.len() == ms.len() - 1);
        assert forall|i: int| 0 <= i < init.len() implies T::valid(#[trigger] init[i]) by {
            assert(init[i] == ms[i]);
        }
        lemma_elems_round_trip::<T>(init, wl + rest);
        let input = elems_wire::<T>(ms) + rest;
        assert(input =~= w + (wl + rest));
        assert(input.skip(w.len() as int) =~= wl + rest);
        assert(T::valid(ms[ms.len() - 1]));
        T::lemma_round_trip(last, rest);
        assert(init.push(last) =~= ms);
        assert(parse_elems::<T>(input, init.len()) == Ok::<(Seq<T::Model>, int), ErrorKind>(
            (init, w.len() as int),
        ));
        assert(T::parse(input.skip(w.len() as int)) == Ok::<(T::Model, int), ErrorKind>(
            (last, wl.len() as int),
        ));
    } else {
        assert(ms =~= Seq::<T::Model>::empty());
    }
}

/// The encoding of the first `i` elements is no longer than that of all of them.
proof fn lemma_elems_wire_prefix<T: KafkaSerializable>(ms: Seq<T::Model>, i: int)
    requires
        0 <= i <= ms.len(),
    ensures
        elems_wire::<T>(ms.take(i)).len() <= elems_wire::<T>(ms).len(),
    decreases ms.len(),
{
    if i < ms.len() {
        lemma_elems_wire_prefix::<T>(ms.drop_last(), i);
        assert(ms.drop_last().take(i) =~= ms.take(i));
    } else {
        assert(ms.take(i) =~= ms);
    }
}

/// The encoding of the first `i + 1` elements extends that of the first `i` by the
/// encoding of element `i`.
proof fn lemma_elems_wire_step<T: KafkaSerializable>(ms: Seq<T::Model>, i: int)
    requires
        0 <= i < ms.len(),
    ensures
        elems_wire::<T>(ms.take(i + 1)) == elems_wire::<T>(ms.take(i)) + T::wire(ms[i]),
{
    assert(ms.take(i + 1).drop_last() =~= ms.take(i));
}

impl<T: KafkaSerializable> KafkaSerializable for Vec<T> {
    type Model = Seq<T::Model>;

    open spec fn model(&self) -> Seq<T::Model> {
        models(self@)
    }

    open spec fn valid(ms: Seq<T::Model>) -> bool {
        &&& forall|i: int| 0 <= i < ms.len() ==> T::valid(#[trigger] ms[i])
        &&& ms.len() <= i32::MAX
        &&& 4 + elems_wire::<T>(ms).len() <= i32::MAX
    }

    /// The element count as an `i32`, then each element in order.
    open spec fn wire(ms: Seq<T::Model>) -> Seq<u8> {
        i32_to_be(ms.len() as i32) + elems_wire::<T>(ms)
    }

    /// A count below zero is refused.
    open spec fn parse(input: Seq<u8>) -> Result<(Seq<T::Model>, int), ErrorKind> {
        match <i32 as KafkaSerializable>::parse(input) {
            Err(k) => Err(k),
            Ok((n, _)) => if n < 0 {
                Err(ErrorKind::MalformedPayload)
            } else {
                match parse_elems::<T>(input.skip(4), n as nat) {
                    Ok((ms, k)) => Ok((ms, 4 + k)),
                    Err(e) => Err(e),
                }
            },
        }
    }

    proof fn lemma_valid_len(ms: Seq<T::Model>) {
    }

    proof fn lemma_parse_len(input: Seq<u8>) {
        if let Ok((n, _)) = <i32 as KafkaSerializable>::parse(input) {
            if n >= 0 {
                lemma_elems_len::<T>(input.skip(4), n as nat);
            }
        }
    }

    proof fn lemma_parse_extend(input: Seq<u8>, extra: Seq<u8>) {
        <i32 as KafkaSerializable>::lemma_parse_extend(input, extra);
        let n = <i32 as KafkaSerializable>::parse(input)->Ok_0.0;
        assert((input + extra).skip(4) =~= input.skip(4) + extra);
        lemma_elems_extend::<T>(input.skip(4), extra, n as nat);
    }

    proof fn lemma_round_trip(ms: Seq<T::Model>, rest: Seq<u8>) {
        let w = elems_wire::<T>(ms);
        <i32 as KafkaSerializable>::lemma_round_trip(ms.len() as i32, w + rest);
        assert(Self::wire(ms) + rest =~= i32_to_be(ms.len() as i32) + (w + rest));
        assert((Self::wire(ms) + rest).skip(4) =~= w + rest);
        lemma_elems_round_trip::<T>(ms, rest);
    }

    fn encode(&self, writer: &mut Vec<u8>) {
        let ghost ms = models(self@);
        (self.len() as i32).encode(writer);
        let mut i: usize = 0;
        while i < self.len()
            invariant
                0 <= i <= self@.len(),
                ms == models(self@),
                Self::valid(ms),
                writer@ == old(writer)@ + i32_to_be(self@.len() as i32) + elems_wire::<T>(ms.take(i as int)),
            decreases self@.len() - i,
        {
            assert(T::valid(ms[i as int]));
            self[i].encode(writer);
            proof {
                lemma_elems_wire_step::<T>(ms, i as int);
            }
            i = i + 1;
        }
        assert(ms.take(i as int) =~= ms);
    }

    fn decode(reader: &mut Reader) -> (r: Result<Vec<T>, KafkaError>) {
        let ghost before = *reader;
        let n = match i32::decode(reader) {
            Ok(n) => n,
            Err(e) => return Err(e),
        };
        proof {
            Reader::lemma_advance(before, *reader, 4);
        }
        if n < 0 {
            return Err(KafkaError::from_error(ErrorKind::MalformedPayload, "negative element count"));
        }
        let ghost body = reader.remaining();
        let ghost start = reader.position();
        let count = n as usize;
        let room = reader.remaining_len();
        let mut result: Vec<T> = Vec::with_capacity(if count < room { count } else { room });
        let mut i: usize = 0;
        assert(models(result@) =~= Seq::<T::Model>::empty());
        assert(reader.remaining() =~= body.skip(0));
        while i < count
            invariant
                0 <= i <= count,
                count == n,
                before == *old(reader),
                <i32 as KafkaSerializable>::parse(before.remaining()) == Ok::<(i32, int), ErrorKind>(
                    (n, 4),
                ),
                body == before.remaining().skip(4),
                start == before.position() + 4,
                body.len() == before.bound() - start,
                reader.wf(),
                reader.bytes() == before.bytes(),
                reader.bound() == before.bound(),
                reader.position() >= start,
                reader.remaining() == body.skip(reader.position() - start),
                parse_elems::<T>(body, i as nat) == Ok::<(Seq<T::Model>, int), ErrorKind>(
                    (models(result@), reader.position() - start),
                ),
            decreases count - i,
        {
            let ghost at = *reader;
            match T::decode(reader) {
                Ok(v) => {
                    proof {
                        T::lemma_parse_len(at.remaining());
                        let k = at.position() - start;
                        Reader::lemma_advance(at, *reader, reader.position() - at.position());
                        assert(reader.remaining() =~= body.skip(reader.position() - start));
                    }
                    let ghost prev = result@;
                    result.push(v);
                    assert(models(result@) =~= models(prev).push(v.model()));
                },
                Err(e) => {
                    proof {
                        lemma_elems_fail::<T>(body, (i + 1) as nat, count as nat);
                    }
                    return Err(e);
                },
            }
            i = i + 1;
        }
        Ok(result)
    }

    fn size(&self) -> (r: i32) {
        let ghost ms = models(self@);
        let mut total: i32 = 4;
        let mut i: usize = 0;
        while i < self.len()
            invariant
                0 <= i <= self@.len(),
                ms == models(self@),
                Self::valid(ms),
                total == 4 + elems_wire::<T>(ms.take(i as int)).len(),
            decreases self@.len() - i,
        {
            assert(T::valid(ms[i as int]));
            proof {
                lemma_elems_wire_step::<T>(ms, i as int);
                lemma_elems_wire_prefix::<T>(ms, i + 1);
            }
            total = total + self[i].size();
            i = i + 1;
        }
        assert(ms.take(i as int) =~= ms);
        total
    }

    fn is_encodable(&self) -> (r: bool) {
        let ghost ms = models(self@);
        if self.len() > i32::MAX as usize {
            return false;
        }
        let mut total: i64 = 4;
        let mut i: usize = 0;
        while i < self.len()
            invariant
                0 <= i <= self@.len(),
                self@.len() <= i32::MAX,
                ms == models(self@),
                forall|j: int| 0 <= j < i ==> T::valid(#[trigger] ms[j]),
                total == 4 + elems_wire::<T>(ms.take(i as int)).len(),
                total <= i32::MAX,
            decreases self@.len() - i,
        {
            if !self[i].is_encodable() {
                assert(!T::valid(ms[i as int]));
                return false;
            }
            proof {
                lemma_elems_wire_step::<T>(ms, i as int);
                lemma_elems_wire_prefix::<T>(ms, i + 1);
            }
            total = total + self[i].size() as i64;
            if total > i32::MAX as i64 {
                return false;
            }
            i = i + 1;
        }
        assert(ms.take(i as int) =~= ms);
        true
    }
}

} // verus!

verus! {

/// Two fields, the first then the second: the building block of every message schema,
/// which lists its fields as nested pairs in wire order.
impl<A: KafkaSerializable, B: KafkaSerializable> KafkaSerializable for (A, B) {
    type Model = (A::Model, B::Model);

    open spec fn model(&self) -> (A::Model, B::Model) {
        (self.0.model(), self.1.model())
    }

    open spec fn valid(m: (A::Model, B::Model)) -> bool {
        &&& A::valid(m.0)
        &&& B::valid(m.1)
        &&& A::wire(m.0).len() + B::wire(m.1).len() <= i32::MAX
    }

    open spec fn wire(m: (A::Model, B::Model)) -> Seq<u8> {
        A::wire(m.0) + B::wire(m.1)
    }

    open spec fn parse(input: Seq<u8>) -> Result<((A::Model, B::Model), int), ErrorKind> {
        match A::parse(input) {
            Err(e) => Err(e),
            Ok((a, k)) => match B::parse(input.skip(k)) {
                Err(e) => Err(e),
                Ok((b, n)) => Ok(((a, b), k + n)),
            },
        }
    }

    proof fn lemma_valid_len(m: (A::Model, B::Model)) {
    }

    proof fn lemma_parse_len(input: Seq<u8>) {
        A::lemma_parse_len(input);
        if let Ok((_, k)) = A::parse(input) {
            B::lemma_parse_len(input.skip(k));
        }
    }

    proof fn lemma_parse_extend(input: Seq<u8>, extra: Seq<u8>) {
        A::lemma_parse_extend(input, extra);
        A::lemma_parse_len(input);
        let k = A::parse(input)->Ok_0.1;
        assert((input + extra).skip(k) =~= input.skip(k) + extra);
        B::lemma_parse_extend(input.skip(k), extra);
    }

    proof fn lemma_round_trip(m: (A::Model, B::Model), rest: Seq<u8>) {
        let wa = A::wire(m.0);
        let wb = B::wire(m.1);
        A::lemma_round_trip(m.0, wb + rest);
        B::lemma_round_trip(m.1, rest);
        assert(Self::wire(m) + rest =~= wa + (wb + rest));
        assert((wa + (wb + rest)).skip(wa.len() as int) =~= wb + rest);
    }

    fn encode(&self, writer: &mut Vec<u8>) {
        self.0.encode(writer);
        self.1.encode(writer);
        assert(writer@ =~= old(writer)@ + Self::wire(self.model()));
    }

    fn decode(reader: &mut Reader) -> (r: Result<(A, B), KafkaError>) {
        let ghost before = *reader;
        let a = match A::decode(reader) {
            Ok(a) => a,
            Err(e) => return Err(e),
        };
        proof {
            A::lemma_parse_len(before.remaining());
            Reader::lemma_advance(before, *reader, reader.position() - before.position());
        }
        match B::decode(reader) {
            Ok(b) => Ok((a, b)),
            Err(e) => Err(e),
        }
    }

    fn size(&self) -> (r: i32) {
        self.0.size() + self.1.size()
    }

    fn is_encodable(&self) -> (r: bool) {
        self.0.is_encodable() && self.1.is_encodable() && self.0.size() as i64 + self.1.size() as i64
            <= i32::MAX as i64
    }
}

/// The encoding of a frame around `m`: the byte length of its encoding as an `i32`, then
/// the encoding.
pub open spec fn frame_wire<T: KafkaSerializable>(m: T::Model) -> Seq<u8> {
    i32_to_be(T::wire(m).len() as i32) + T::wire(m)
}

/// Whether a frame around `m` can be written.
pub open spec fn frame_fits<T: KafkaSerializable>(m: T::Model) -> bool {
    T::valid(m) && 4 + T::wire(m).len() <= i32::MAX
}

/// Reading a frame from the start of `input`: its declared length `n` must be
/// non-negative and must not run past the input, and the value inside must take exactly
/// those `n` bytes.
pub open spec fn parse_frame<T: KafkaSerializable>(input: Seq<u8>) -> Result<(T::Model, int), ErrorKind> {
    match <i32 as KafkaSerializable>::parse(input) {
        Err(k) => Err(k),
        Ok((n, _)) => if n < 0 {
            Err(ErrorKind::MalformedPayload)
        } else if input.len() - 4 < n {
            Err(ErrorKind::Truncated)
        } else {
            match T::parse(input.subrange(4, 4 + n)) {
                Err(e) => Err(e),
                Ok((m, k)) => if k == n {
                    Ok((m, 4 + n))
                } else {
                    Err(ErrorKind::MalformedPayload)
                },
            }
        },
    }
}

/// Reading a frame that succeeds looks at no byte past the frame.
pub proof fn lemma_frame_extend<T: KafkaSerializable>(input: Seq<u8>, extra: Seq<u8>)
    requires
        parse_frame::<T>(input) is Ok,
    ensures
        parse_frame::<T>(input + extra) == parse_frame::<T>(input),
{
    <i32 as KafkaSerializable>::lemma_parse_extend(input, extra);
    let n = <i32 as KafkaSerializable>::parse(input)->Ok_0.0;
    assert((input + extra).subrange(4, 4 + n) =~= input.subrange(4, 4 + n));
}

/// Reading a written frame gives back the value inside and takes the whole frame.
pub proof fn lemma_frame_round_trip<T: KafkaSerializable>(m: T::Model, rest: Seq<u8>)
    requires
        frame_fits::<T>(m),
    ensures
        parse_frame::<T>(frame_wire::<T>(m) + rest) == Ok::<(T::Model, int), ErrorKind>(
            (m, frame_wire::<T>(m).len() as int),
        ),
{
    let w = T::wire(m);
    let input = frame_wire::<T>(m) + rest;
    <i32 as KafkaSerializable>::lemma_round_trip(w.len() as i32, w + rest);
    assert(input =~= i32_to_be(w.len() as i32) + (w + rest));
    assert(input.subrange(4, 4 + w.len() as int) =~= w + Seq::<u8>::empty());
    T::lemma_round_trip(m, Seq::empty());
}

/// Whether a frame around `v` can be written.
pub fn frame_encodable<T: KafkaSerializable>(v: &T) -> (r: bool)
    ensures
        r == frame_fits::<T>(v.model()),
{
    v.is_encodable() && v.size() <= i32::MAX - 4
}

/// Writes a frame around `v`.
pub fn encode_frame<T: KafkaSerializable>(v: &T, writer: &mut Vec<u8>)
    requires
        frame_fits::<T>(v.model()),
    ensures
        final(writer)@ == old(writer)@ + frame_wire::<T>(v.model()),
{
    let n = v.size();
    n.encode(writer);
    v.encode(writer);
    assert(writer@ =~= old(writer)@ + frame_wire::<T>(v.model()));
}

/// Reads a frame and the value inside it, with reading confined to the frame's declared
/// length, as [`parse_frame`] describes.
pub fn decode_frame<T: KafkaSerializable>(reader: &mut Reader) -> (r: Result<T, KafkaError>)
    requires
        old(reader).wf(),
    ensures
        final(reader).wf(),
        final(reader).bytes() == old(reader).bytes(),
        final(reader).bound() == old(reader).bound(),
        match parse_frame::<T>(old(reader).remaining()) {
            Ok((m, n)) => r is Ok && r->Ok_0.model() == m && final(reader).position() == old(
                reader,
            ).position() + n,
            Err(k) => r is Err && r->Err_0.kind == k,
        },
{
    let ghost before = *reader;
    let n = match i32::decode(reader) {
        Ok(n) => n,
        Err(e) => return Err(e),
    };
    proof {
        Reader::lemma_advance(before, *reader, 4);
    }
    if n < 0 {
        return Err(KafkaError::from_error(ErrorKind::MalformedPayload, "negative frame length"));
    }
    if n as usize > reader.remaining_len() {
        return Err(KafkaError::from_error(ErrorKind::Truncated, "frame runs past the end of input"));
    }
    let saved = reader.limit_to(n as usize);
    assert(reader.remaining() =~= before.remaining().subrange(4, 4 + n));
    let inner = T::decode(reader);
    let complete = reader.eof();
    reader.restore_limit(saved);
    match inner {
        Ok(v) => if complete {
            Ok(v)
        } else {
            Err(KafkaError::from_error(ErrorKind::MalformedPayload, "frame not consumed exactly"))
        },
        Err(e) => Err(e),
    }
}

/// A value sent with its byte length in front, so that a reader can confine decoding to
/// exactly its bytes.
#[derive(PartialEq, Eq, Debug)]
pub struct WithSize<T: KafkaSerializable>(pub T);

impl<T: KafkaSerializable> KafkaSerializable for WithSize<T> {
    type Model = T::Model;

    open spec fn model(&self) -> T::Model {
        self.0.model()
    }

    open spec fn valid(m: T::Model) -> bool {
        frame_fits::<T>(m)
    }

    open spec fn wire(m: T::Model) -> Seq<u8> {
        frame_wire::<T>(m)
    }

    open spec fn parse(input: Seq<u8>) -> Result<(T::Model, int), ErrorKind> {
        parse_frame::<T>(input)
    }

    proof fn lemma_valid_len(m: T::Model) {
    }

    proof fn lemma_parse_len(input: Seq<u8>) {
    }

    proof fn lemma_parse_extend(input: Seq<u8>, extra: Seq<u8>) {
        lemma_frame_extend::<T>(input, extra);
    }

    proof fn lemma_round_trip(m: T::Model, rest: Seq<u8>) {
        lemma_frame_round_trip::<T>(m, rest);
    }

    fn encode(&self, writer: &mut Vec<u8>) {
        encode_frame(&self.0, writer);
    }

    fn decode(reader: &mut Reader) -> (r: Result<WithSize<T>, KafkaError>) {
        match decode_frame(reader) {
            Ok(v) => Ok(WithSize(v)),
            Err(e) => Err(e),
        }
    }

    fn size(&self) -> (r: i32) {
        4 + self.0.size()
    }

    fn is_encodable(&self) -> (r: bool) {
        frame_encodable(&self.0)
    }
}

} // verus!

verus! {

/// A frame whose declared length is one more, or one less, than the encoding it holds
/// is refused, whatever bytes follow it.
pub proof fn frame_length_off_by_one<T: KafkaSerializable>(m: T::Model, rest: Seq<u8>)
    requires
        frame_fits::<T>(m),
    ensures
        <WithSize<T>>::parse(i32_to_be((T::wire(m).len() + 1) as i32) + T::wire(m) + rest) is Err,
        <WithSize<T>>::parse(i32_to_be((T::wire(m).len() - 1) as i32) + T::wire(m) + rest) is Err,
{
    let w = T::wire(m);
    let len = w.len() as int;
    let over = i32_to_be((len + 1) as i32) + w + rest;
    <i32 as KafkaSerializable>::lemma_round_trip((len + 1) as i32, w + rest);
    assert(over =~= i32_to_be((len + 1) as i32) + (w + rest));
    if over.len() - 4 >= len + 1 {
        let window = over.subrange(4, 4 + len + 1);
        assert(window =~= w + rest.take(1));
        T::lemma_round_trip(m, rest.take(1));
    }
    let under = i32_to_be((len - 1) as i32) + w + rest;
    <i32 as KafkaSerializable>::lemma_round_trip((len - 1) as i32, w + rest);
    assert(under =~= i32_to_be((len - 1) as i32) + (w + rest));
    if len >= 1 {
        let window = under.subrange(4, 4 + len - 1);
        assert(window =~= w.take(len - 1));
        if T::parse(window) is Ok {
            T::lemma_parse_extend(window, w.skip(len - 1) + rest);
            assert(window + (w.skip(len - 1) + rest) =~= w + rest);
            T::lemma_round_trip(m, rest);
        }
    }
}

} // verus!
