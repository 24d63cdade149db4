//! The wire format of one tokenized message: the 32-bit token, least
//! significant byte first, followed by each runtime argument in call-site
//! order. A signed integer argument travels as a zig-zag base-128 varint,
//! a string as a varint byte length followed by its raw bytes, and a
//! single character as exactly one raw byte.

use vstd::prelude::*;
use vstd::string::StringSliceAdditionalSpecFns;
use crate::error::TokenizeError;
use crate::varint::{
    encode_u32_base128, leb128_decode_spec, leb128_spec, lemma_leb128_round_trip,
    lemma_zigzag_round_trip, unzigzag_spec, zigzag_encode, zigzag_spec,
};

verus! {

/// One runtime argument of a tokenized logging statement, tagged by the
/// conversion it came from.
pub enum Argument<'a> {
    /// A signed integer conversion.
    Varint(i32),
    /// A string conversion; the length is not known until encode time.
    String(&'a str),
    /// A single-character conversion.
    Char(u8),
}

/// The mathematical value of one argument: the string case is its UTF-8
/// byte sequence.
pub enum ArgValue {
    Varint(i32),
    Str(Seq<u8>),
    Char(u8),
}

/// The conversion kind of an argument, which a decoder learns from the
/// format string the token stands for.
pub enum ArgKind {
    Varint,
    String,
    Char,
}

pub open spec fn arg_view<'a>(a: Argument<'a>) -> ArgValue {
    match a {
        Argument::Varint(n) => ArgValue::Varint(n),
        Argument::String(s) => ArgValue::Str(s.spec_bytes()),
        Argument::Char(c) => ArgValue::Char(c),
    }
}

pub open spec fn args_view<'a>(args: Seq<Argument<'a>>) -> Seq<ArgValue> {
    args.map_values(|a: Argument<'a>| arg_view(a))
}

pub open spec fn kind_of(a: ArgValue) -> ArgKind {
    match a {
        ArgValue::Varint(_) => ArgKind::Varint,
        ArgValue::Str(_) => ArgKind::String,
        ArgValue::Char(_) => ArgKind::Char,
    }
}

pub open spec fn kinds_of(args: Seq<ArgValue>) -> Seq<ArgKind> {
    args.map_values(|a: ArgValue| kind_of(a))
}

/// A string argument's length must fit the 32-bit length prefix.
pub open spec fn arg_wf(a: ArgValue) -> bool {
    match a {
        ArgValue::Str(b) => b.len() <= u32::MAX,
        _ => true,
    }
}

pub open spec fn args_wf(args: Seq<ArgValue>) -> bool {
    forall|i: int| 0 <= i < args.len() ==> arg_wf(#[trigger] args[i])
}

/// The wire bytes of one argument.
pub open spec fn arg_bytes(a: ArgValue) -> Seq<u8> {
    match a {
        ArgValue::Varint(n) => leb128_spec(zigzag_spec(n)),
        ArgValue::Str(b) => leb128_spec(b.len() as u32) + b,
        ArgValue::Char(c) => seq![c],
    }
}

/// The wire bytes of an argument sequence, in order, nothing between.
pub open spec fn args_bytes(args: Seq<ArgValue>) -> Seq<u8>
    decreases args.len(),
{
    if args.len() == 0 {
        Seq::empty()
    } else {
        arg_bytes(args[0]) + args_bytes(args.drop_first())
    }
}

/// A 32-bit value laid out least significant byte first.
pub open spec fn u32_le_bytes(v: u32) -> Seq<u8> {
    seq![
        (v % 0x100) as u8,
        ((v / 0x100) % 0x100) as u8,
        ((v / 0x1_0000) % 0x100) as u8,
        ((v / 0x100_0000) % 0x100) as u8,
    ]
}

/// One whole tokenized message: the token first, so a decoder can pick
/// the argument shape to expect, then the encoded arguments.
pub open spec fn message_bytes(token: u32, args: Seq<ArgValue>) -> Seq<u8> {
    u32_le_bytes(token) + args_bytes(args)
}

/// Appends a 32-bit value, least significant byte first.
pub fn push_u32_le(out: &mut Vec<u8>, v: u32)
    ensures
        final(out)@ == old(out)@ + u32_le_bytes(v),
{
    out.push((v % 0x100) as u8);
    out.push(((v / 0x100) % 0x100) as u8);
    out.push(((v / 0x1_0000) % 0x100) as u8);
    out.push(((v / 0x100_0000) % 0x100) as u8);
    proof {
        assert(out@ =~= old(out)@ + u32_le_bytes(v));
    }
}

/// Appends the wire bytes of one argument.
pub fn encode_arg(arg: &Argument<'_>, out: &mut Vec<u8>)
    requires
        arg_wf(arg_view(*arg)),
    ensures
        final(out)@ == old(out)@ + arg_bytes(arg_view(*arg)),
{
    match arg {
        Argument::Varint(n) => {
            encode_u32_base128(zigzag_encode(*n), out);
        },
        Argument::String(s) => {
            let bytes = s.as_bytes();
            encode_u32_base128(bytes.len() as u32, out);
            out.extend_from_slice(bytes);
            proof {
                assert(out@ =~= old(out)@ + arg_bytes(arg_view(*arg)));
            }
        },
        Argument::Char(c) => {
            out.push(*c);
            proof {
                assert(out@ =~= old(out)@ + arg_bytes(arg_view(*arg)));
            }
        },
    }
}

/// Splitting an argument sequence splits its wire bytes at the same
/// place: encoding is concatenative.
pub proof fn lemma_args_bytes_append(s1: Seq<ArgValue>, s2: Seq<ArgValue>)
    ensures
        args_bytes(s1 + s2) == args_bytes(s1) + args_bytes(s2),
    decreases s1.len(),
{
    if s1.len() == 0 {
        assert(s1 + s2 =~= s2);
        assert(args_bytes(s1) + args_bytes(s2) =~= args_bytes(s2));
    } else {
        lemma_args_bytes_append(s1.drop_first(), s2);
        assert((s1 + s2).drop_first() =~= s1.drop_first() + s2);
        assert((s1 + s2)[0] == s1[0]);
        assert(arg_bytes(s1[0]) + (args_bytes(s1.drop_first()) + args_bytes(s2))
            =~= (arg_bytes(s1[0]) + args_bytes(s1.drop_first())) + args_bytes(s2));
    }
}

/// Appends the wire bytes of a whole argument sequence, in order.
pub fn encode_args(args: &[Argument<'_>], out: &mut Vec<u8>)
    requires
        args_wf(args_view(args@)),
    ensures
        final(out)@ == old(out)@ + args_bytes(args_view(args@)),
{
    let ghost model = args_view(args@);
    let mut i: usize = 0;
    while i < args.len()
        invariant
            i <= args@.len(),
            model == args_view(args@),
            args_wf(model),
            out@ == old(out)@ + args_bytes(model.take(i as int)),
        decreases args@.len() - i,
    {
        proof {
            assert(model.take(i as int + 1) =~= model.take(i as int) + seq![model[i as int]]);
            lemma_args_bytes_append(model.take(i as int), seq![model[i as int]]);
            assert(seq![model[i as int]].drop_first() =~= Seq::<ArgValue>::empty());
            assert(args_bytes(Seq::<ArgValue>::empty()) == Seq::<u8>::empty());
            assert(seq![model[i as int]][0] == model[i as int]);
            assert(args_bytes(seq![model[i as int]]) =~= arg_bytes(model[i as int]));
            assert(arg_view(args@[i as int]) == model[i as int]);
        }
        encode_arg(&args[i], out);
        proof {
            assert(out@ =~= old(out)@ + args_bytes(model.take(i as int + 1)));
        }
        i += 1;
    }
    proof {
        assert(model.take(args@.len() as int) =~= model);
    }
}

/// Encodes token and arguments against a fixed capacity: the whole
/// message, or `BufferExhausted` when it does not fit, never a prefix.
pub fn tokenize_to_buffer(capacity: usize, token: u32, args: &[Argument<'_>]) -> (r: Result<
    Vec<u8>,
    TokenizeError,
>)
    requires
        args_wf(args_view(args@)),
    ensures
        match r {
            Ok(out) => out@ == message_bytes(token, args_view(args@)) && out@.len() <= capacity,
            Err(e) => e == TokenizeError::BufferExhausted && message_bytes(
                token,
                args_view(args@),
            ).len() > capacity,
        },
{
    let mut out: Vec<u8> = Vec::new();
    push_u32_le(&mut out, token);
    encode_args(args, &mut out);
    proof {
        assert(out@ =~= message_bytes(token, args_view(args@)));
    }
    if out.len() <= capacity {
        Ok(out)
    } else {
        Err(TokenizeError::BufferExhausted)
    }
}

/// The no-argument fast path of the fixed-capacity variant: the message
/// is the token alone.
pub fn tokenize_to_buffer_no_args(capacity: usize, token: u32) -> (r: Result<
    Vec<u8>,
    TokenizeError,
>)
    ensures
        match r {
            Ok(out) => out@ == message_bytes(token, Seq::empty()) && out@.len() <= capacity,
            Err(e) => e == TokenizeError::BufferExhausted && message_bytes(
                token,
                Seq::empty(),
            ).len() > capacity,
        },
{
    let mut out: Vec<u8> = Vec::new();
    push_u32_le(&mut out, token);
    proof {
        assert(out@ =~= message_bytes(token, Seq::<ArgValue>::empty()));
    }
    if out.len() <= capacity {
        Ok(out)
    } else {
        Err(TokenizeError::BufferExhausted)
    }
}

/// An open-ended destination with append-only, all-or-nothing writes.
/// A fixed-capacity byte buffer and an unbounded in-memory store are both
/// valid implementations.
pub trait Sink {
    /// The bytes the destination has accepted so far.
    spec fn contents(&self) -> Seq<u8>;

    /// Appends `data` whole, or fails having appended nothing; a failure
    /// is always reported as a mid-write destination failure, `Write`.
    fn write(&mut self, data: &[u8]) -> (r: Result<(), TokenizeError>)
        ensures
            r is Ok ==> final(self).contents() == old(self).contents() + data@,
            r is Err ==> final(self).contents() == old(self).contents(),
            r is Err ==> r == Err::<(), TokenizeError>(TokenizeError::Write),
    ;
}

/// An unbounded in-memory sink; its writes always succeed.
pub struct VecSink {
    pub data: Vec<u8>,
}

impl VecSink {
    pub fn new() -> (s: VecSink)
        ensures
            s.contents() == Seq::<u8>::empty(),
    {
        VecSink { data: Vec::new() }
    }
}

impl Sink for VecSink {
    open spec fn contents(&self) -> Seq<u8> {
        self.data@
    }

    fn write(&mut self, data: &[u8]) -> (r: Result<(), TokenizeError>)
        ensures
            r is Ok,
    {
        self.data.extend_from_slice(data);
        Ok(())
    }
}

/// A sink over a fixed capacity: a write that would push the contents
/// past the capacity fails whole, as a mid-write destination failure.
pub struct BoundedSink {
    pub data: Vec<u8>,
    pub capacity: usize,
}

impl BoundedSink {
    pub fn new(capacity: usize) -> (s: BoundedSink)
        ensures
            s.contents() == Seq::<u8>::empty(),
            s.capacity == capacity,
    {
        BoundedSink { data: Vec::new(), capacity }
    }
}

impl Sink for BoundedSink {
    open spec fn contents(&self) -> Seq<u8> {
        self.data@
    }

    fn write(&mut self, data: &[u8]) -> (r: Result<(), TokenizeError>)
        ensures
            r is Ok <==> old(self).contents().len() + data@.len() <= old(self).capacity,
            final(self).capacity == old(self).capacity,
    {
        if data.len() <= self.capacity && self.data.len() <= self.capacity - data.len() {
            self.data.extend_from_slice(data);
            Ok(())
        } else {
            Err(TokenizeError::Write)
        }
    }
}

/// Streams token and arguments into an open-ended sink, one fragment at
/// a time: the token first, then each argument in order. On success the
/// sink has accepted exactly the message and the byte count is returned;
/// a destination failure is surfaced immediately as `Write`, the sink
/// holding the untouched old contents plus some whole prefix of the
/// message.
pub fn tokenize_to_writer<S: Sink>(sink: &mut S, token: u32, args: &[Argument<'_>]) -> (r: Result<
    usize,
    TokenizeError,
>)
    requires
        args_wf(args_view(args@)),
        message_bytes(token, args_view(args@)).len() <= usize::MAX,
    ensures
        match r {
            Ok(n) => final(sink).contents() == old(sink).contents() + message_bytes(
                token,
                args_view(args@),
            ) && n == message_bytes(token, args_view(args@)).len(),
            Err(e) => e == TokenizeError::Write && (final(sink).contents() == old(
                sink,
            ).contents() || exists|k: int|
                0 <= k <= args_view(args@).len() && final(sink).contents() == old(sink).contents()
                    + message_bytes(token, args_view(args@).take(k))),
        },
{
    let ghost model = args_view(args@);
    let mut fragment: Vec<u8> = Vec::new();
    push_u32_le(&mut fragment, token);
    proof {
        assert(fragment@ =~= u32_le_bytes(token));
    }
    match sink.write(fragment.as_slice()) {
        Ok(()) => {},
        Err(e) => {
            return Err(e);
        },
    }
    let mut n: usize = fragment.len();
    let mut i: usize = 0;
    proof {
        assert(model.take(0) =~= Seq::<ArgValue>::empty());
        assert(args_bytes(Seq::<ArgValue>::empty()) == Seq::<u8>::empty());
        assert(sink.contents() =~= old(sink).contents() + message_bytes(token, model.take(0)));
        assert(n == message_bytes(token, model.take(0)).len());
    }
    while i < args.len()
        invariant
            i <= args@.len(),
            model == args_view(args@),
            args_wf(model),
            message_bytes(token, model).len() <= usize::MAX,
            sink.contents() == old(sink).contents() + message_bytes(token, model.take(i as int)),
            n == message_bytes(token, model.take(i as int)).len(),
        decreases args@.len() - i,
    {
        let mut fragment: Vec<u8> = Vec::new();
        encode_arg(&args[i], &mut fragment);
        proof {
            assert(fragment@ =~= arg_bytes(model[i as int]));
            assert(model.take(i as int + 1) =~= model.take(i as int) + seq![model[i as int]]);
            lemma_args_bytes_append(model.take(i as int), seq![model[i as int]]);
            assert(seq![model[i as int]].drop_first() =~= Seq::<ArgValue>::empty());
            assert(args_bytes(Seq::<ArgValue>::empty()) == Seq::<u8>::empty());
            assert(seq![model[i as int]][0] == model[i as int]);
            assert(args_bytes(seq![model[i as int]]) =~= arg_bytes(model[i as int]));
            assert(arg_view(args@[i as int]) == model[i as int]);
            assert(model =~= model.take(i as int + 1) + model.skip(i as int + 1));
            lemma_args_bytes_append(model.take(i as int + 1), model.skip(i as int + 1));
        }
        match sink.write(fragment.as_slice()) {
            Ok(()) => {},
            Err(e) => {
                proof {
                    assert(exists|k: int|
                        0 <= k <= model.len() && sink.contents() == old(sink).contents()
                            + message_bytes(token, model.take(k))) by {
                        assert(sink.contents() == old(sink).contents() + message_bytes(
                            token,
                            model.take(i as int),
                        ));
                    }
                }
                return Err(e);
            },
        }
        proof {
            assert(sink.contents() =~= old(sink).contents() + message_bytes(
                token,
                model.take(i as int + 1),
            ));
        }
        n = n + fragment.len();
        i += 1;
    }
    proof {
        assert(model.take(args@.len() as int) =~= model);
    }
    Ok(n)
}

/// The no-argument fast path of the sink variant: the message is the
/// token alone.
pub fn tokenize_to_writer_no_args<S: Sink>(sink: &mut S, token: u32) -> (r: Result<
    usize,
    TokenizeError,
>)
    ensures
        match r {
            Ok(n) => final(sink).contents() == old(sink).contents() + message_bytes(
                token,
                Seq::empty(),
            ) && n == message_bytes(token, Seq::<ArgValue>::empty()).len(),
            Err(e) => e == TokenizeError::Write && final(sink).contents() == old(sink).contents(),
        },
{
    let mut fragment: Vec<u8> = Vec::new();
    push_u32_le(&mut fragment, token);
    proof {
        assert(fragment@ =~= u32_le_bytes(token));
        assert(u32_le_bytes(token) =~= message_bytes(token, Seq::<ArgValue>::empty()));
    }
    match sink.write(fragment.as_slice()) {
        Ok(()) => Ok(4),
        Err(e) => Err(e),
    }
}

/// Reads one argument of the given kind from the front of `s`: its value
/// and how many bytes it took, or nothing if `s` is malformed or short.
pub open spec fn arg_decode_spec(s: Seq<u8>, kind: ArgKind) -> Option<(ArgValue, int)> {
    match kind {
        ArgKind::Varint => match leb128_decode_spec(s) {
            Some((z, n)) => Some((ArgValue::Varint(unzigzag_spec(z)), n)),
            None => None,
        },
        ArgKind::String => match leb128_decode_spec(s) {
            Some((l, n)) => if n + l <= s.len() {
                Some((ArgValue::Str(s.subrange(n, n + l)), n + l))
            } else {
                None
            },
            None => None,
        },
        ArgKind::Char => if s.len() >= 1 {
            Some((ArgValue::Char(s[0]), 1))
        } else {
            None
        },
    }
}

/// Reads a whole argument sequence of the given kinds, consuming `s`
/// exactly.
pub open spec fn args_decode_spec(s: Seq<u8>, kinds: Seq<ArgKind>) -> Option<Seq<ArgValue>>
    decreases kinds.len(),
{
    if kinds.len() == 0 {
        if s.len() == 0 {
            Some(Seq::empty())
        } else {
            None
        }
    } else {
        match arg_decode_spec(s, kinds[0]) {
            None => None,
            Some((a, n)) => match args_decode_spec(s.skip(n), kinds.drop_first()) {
                None => None,
                Some(rest) => Some(seq![a] + rest),
            },
        }
    }
}

/// One encoded argument decodes back to itself, whatever follows it on
/// the wire.
pub proof fn lemma_arg_round_trip(a: ArgValue, rest: Seq<u8>)
    requires
        arg_wf(a),
    ensures
        arg_decode_spec(arg_bytes(a) + rest, kind_of(a)) == Some(
            (a, arg_bytes(a).len() as int),
        ),
{
    match a {
        ArgValue::Varint(n) => {
            lemma_leb128_round_trip(zigzag_spec(n), rest);
            lemma_zigzag_round_trip(n);
        },
        ArgValue::Str(b) => {
            let l = b.len() as u32;
            assert(arg_bytes(a) + rest =~= leb128_spec(l) + (b + rest));
            lemma_leb128_round_trip(l, b + rest);
            let n = leb128_spec(l).len() as int;
            assert((arg_bytes(a) + rest).subrange(n, n + l as int) =~= b);
        },
        ArgValue::Char(c) => {
            assert((arg_bytes(a) + rest)[0] == c);
        },
    }
}

/// Decoding undoes encoding: an encoded argument sequence, read back
/// with the kinds its format string dictates, yields the original
/// values exactly.
pub proof fn lemma_args_round_trip(args: Seq<ArgValue>)
    requires
        args_wf(args),
    ensures
        args_decode_spec(args_bytes(args), kinds_of(args)) == Some(args),
    decreases args.len(),
{
    if args.len() == 0 {
        assert(args_bytes(args) =~= Seq::<u8>::empty());
        assert(kinds_of(args) =~= Seq::<ArgKind>::empty());
        assert(args =~= Seq::<ArgValue>::empty());
    } else {
        let a = args[0];
        let tail = args.drop_first();
        lemma_arg_round_trip(a, args_bytes(tail));
        assert(args =~= seq![a] + tail);
        lemma_args_bytes_append(seq![a], tail);
        assert(seq![a].drop_first() =~= Seq::<ArgValue>::empty());
        assert(args_bytes(seq![a]) =~= arg_bytes(a));
        assert(args_bytes(args) =~= arg_bytes(a) + args_bytes(tail));
        assert(args_bytes(args).skip(arg_bytes(a).len() as int) =~= args_bytes(tail));
        assert(kinds_of(args)[0] == kind_of(a));
        assert(kinds_of(args).drop_first() =~= kinds_of(tail));
        assert(forall|i: int| 0 <= i < tail.len() ==> arg_wf(#[trigger] tail[i]));
        lemma_args_round_trip(tail);
    }
}

/// The 32-bit value four wire bytes stand for, least significant byte
/// first.
pub open spec fn u32_from_le_bytes(s: Seq<u8>) -> u32
    recommends
        s.len() == 4,
{
    (s[0] + 0x100 * s[1] + 0x1_0000 * s[2] + 0x100_0000 * s[3]) as u32
}

/// The token comes back out of the first four message bytes, whatever
/// follows them.
pub proof fn lemma_token_round_trip(token: u32, rest: Seq<u8>)
    ensures
        (u32_le_bytes(token) + rest).len() == 4 + rest.len(),
        u32_from_le_bytes((u32_le_bytes(token) + rest).take(4)) == token,
        (u32_le_bytes(token) + rest).skip(4) == rest,
{
    assert((u32_le_bytes(token) + rest).take(4) =~= u32_le_bytes(token));
    assert((u32_le_bytes(token) + rest).skip(4) =~= rest);
    assert(token % 0x100 + 0x100 * ((token / 0x100) % 0x100) + 0x1_0000 * ((token / 0x1_0000)
        % 0x100) + 0x100_0000 * ((token / 0x100_0000) % 0x100) == token) by (bit_vector);
}

/// A whole message decodes back to what was encoded: the token first, so
/// the decoder can register which format string's argument shape to
/// expect, then the argument values exactly.
pub proof fn lemma_message_round_trip(token: u32, args: Seq<ArgValue>)
    requires
        args_wf(args),
    ensures
        message_bytes(token, args).len() >= 4,
        u32_from_le_bytes(message_bytes(token, args).take(4)) == token,
        args_decode_spec(message_bytes(token, args).skip(4), kinds_of(args)) == Some(args),
{
    lemma_token_round_trip(token, args_bytes(args));
    lemma_args_round_trip(args);
}

} // verus!
