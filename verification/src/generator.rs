//! The generator interface an external printf-style format parser drives
//! by callback: runs of literal text and each conversion specifier arrive
//! in call-site order, the generator accumulates the matching argument
//! encodings, and a final call with the fully reconstructed format string
//! computes the token, builds the database entry, and emits the encoded
//! message. Taking the generator by value in that final call makes any
//! use after completion a type error, so no callback can arrive late.
//!
//! Two variants differ only in the destination: one fills a
//! fixed-capacity buffer, one streams into an open-ended sink. Both route
//! through the same argument encoding, so their wire bytes agree.

use vstd::prelude::*;
use vstd::string::StringSliceAdditionalSpecFns;
use crate::encode::{
    args_view, args_wf, message_bytes, tokenize_to_buffer, tokenize_to_buffer_no_args,
    tokenize_to_writer, tokenize_to_writer_no_args, ArgValue, Argument, Sink,
};
use crate::entry::{build_entry, has_zero_byte, EntryRecord};
use crate::error::TokenizeError;
use crate::hash::hash_bytes_spec;

verus! {

/// The capability set a format-string parser drives. Literal text is
/// folded into the format string the parser hands to the final call, so
/// it changes no accumulated argument; each conversion callback appends
/// one argument, in order.
pub trait Generator<'a> {
    /// The arguments accumulated so far, in call-site order.
    spec fn args_model(&self) -> Seq<ArgValue>;

    /// A run of non-conversion characters: a no-op for the accumulated
    /// arguments.
    fn string_fragment(&mut self, fragment: &str)
        ensures
            final(self).args_model() == old(self).args_model(),
    ;

    /// An integer conversion, already narrowed or widened by the caller
    /// to the canonical signed 32-bit representation.
    fn integer_conversion(&mut self, value: i32)
        ensures
            final(self).args_model() == old(self).args_model().push(ArgValue::Varint(value)),
    ;

    /// A string conversion.
    fn string_conversion(&mut self, value: &'a str)
        ensures
            final(self).args_model() == old(self).args_model().push(
                ArgValue::Str(value.spec_bytes()),
            ),
    ;

    /// A single-character conversion, narrowed to one byte.
    fn char_conversion(&mut self, value: u8)
        ensures
            final(self).args_model() == old(self).args_model().push(ArgValue::Char(value)),
    ;
}

/// What finalizing against a buffer yields: the database entry to
/// register, and the encoded message.
pub struct TokenizedMessage {
    pub entry: EntryRecord,
    pub data: Vec<u8>,
}

/// The generator variant that encodes into a fixed-capacity in-memory
/// buffer; overflowing it is a hard failure.
pub struct BufferGenerator<'a> {
    pub domain: &'a str,
    pub capacity: usize,
    pub args: Vec<Argument<'a>>,
}

impl<'a> BufferGenerator<'a> {
    pub fn new(domain: &'a str, capacity: usize) -> (g: BufferGenerator<'a>)
        ensures
            g.args_model() == Seq::<ArgValue>::empty(),
            g.domain == domain,
            g.capacity == capacity,
    {
        let g = BufferGenerator { domain, capacity, args: Vec::new() };
        proof {
            assert(g.args_model() =~= Seq::<ArgValue>::empty());
        }
        g
    }

    /// Completes the run: hashes the reconstructed format string into the
    /// token, builds the entry record, and encodes token plus accumulated
    /// arguments against the fixed capacity — through the no-argument
    /// fast path when nothing was accumulated. Fails with
    /// `InvalidContent` exactly when domain or format string holds an
    /// interior zero byte, and otherwise with `BufferExhausted` exactly
    /// when the whole message does not fit.
    pub fn finalize(self, format: &str) -> (r: Result<TokenizedMessage, TokenizeError>)
        requires
            self.domain.spec_bytes().len() + 1 <= u32::MAX,
            format.spec_bytes().len() + 1 <= u32::MAX,
            args_wf(self.args_model()),
        ensures
            match r {
                Ok(m) => {
                    &&& !has_zero_byte(self.domain.spec_bytes())
                    &&& !has_zero_byte(format.spec_bytes())
                    &&& m.entry.token == hash_bytes_spec(format.spec_bytes())
                    &&& m.entry.domain@ == self.domain.spec_bytes()
                    &&& m.entry.text@ == format.spec_bytes()
                    &&& m.entry.wf()
                    &&& m.data@ == message_bytes(
                        hash_bytes_spec(format.spec_bytes()),
                        self.args_model(),
                    )
                    &&& m.data@.len() <= self.capacity
                },
                Err(e) => (e == TokenizeError::InvalidContent && (has_zero_byte(
                    self.domain.spec_bytes(),
                ) || has_zero_byte(format.spec_bytes()))) || (e == TokenizeError::BufferExhausted
                    && !has_zero_byte(self.domain.spec_bytes()) && !has_zero_byte(
                    format.spec_bytes(),
                ) && message_bytes(hash_bytes_spec(format.spec_bytes()), self.args_model()).len()
                    > self.capacity),
            },
    {
        let entry = match build_entry(self.domain, format) {
            Ok(e) => e,
            Err(e) => {
                return Err(e);
            },
        };
        let token = entry.token;
        let encoded = if self.args.len() == 0 {
            proof {
                assert(self.args_model() =~= Seq::<ArgValue>::empty());
            }
            tokenize_to_buffer_no_args(self.capacity, token)
        } else {
            tokenize_to_buffer(self.capacity, token, self.args.as_slice())
        };
        match encoded {
            Ok(data) => Ok(TokenizedMessage { entry, data }),
            Err(e) => Err(e),
        }
    }
}

impl<'a> Generator<'a> for BufferGenerator<'a> {
    open spec fn args_model(&self) -> Seq<ArgValue> {
        args_view(self.args@)
    }

    fn string_fragment(&mut self, _fragment: &str)
        ensures
            final(self).domain == old(self).domain,
            final(self).capacity == old(self).capacity,
    {
        proof {
            assert(self.args_model() =~= old(self).args_model());
        }
    }

    fn integer_conversion(&mut self, value: i32)
        ensures
            final(self).domain == old(self).domain,
            final(self).capacity == old(self).capacity,
    {
        self.args.push(Argument::Varint(value));
        proof {
            assert(self.args_model() =~= old(self).args_model().push(ArgValue::Varint(value)));
        }
    }

    fn string_conversion(&mut self, value: &'a str)
        ensures
            final(self).domain == old(self).domain,
            final(self).capacity == old(self).capacity,
    {
        self.args.push(Argument::String(value));
        proof {
            assert(self.args_model() =~= old(self).args_model().push(
                ArgValue::Str(value.spec_bytes()),
            ));
        }
    }

    fn char_conversion(&mut self, value: u8)
        ensures
            final(self).domain == old(self).domain,
            final(self).capacity == old(self).capacity,
    {
        self.args.push(Argument::Char(value));
        proof {
            assert(self.args_model() =~= old(self).args_model().push(ArgValue::Char(value)));
        }
    }
}

/// The generator variant that streams into an open-ended sink, bounded
/// only by the sink's own limits.
pub struct WriterGenerator<'a> {
    pub domain: &'a str,
    pub args: Vec<Argument<'a>>,
}

impl<'a> WriterGenerator<'a> {
    pub fn new(domain: &'a str) -> (g: WriterGenerator<'a>)
        ensures
            g.args_model() == Seq::<ArgValue>::empty(),
            g.domain == domain,
    {
        let g = WriterGenerator { domain, args: Vec::new() };
        proof {
            assert(g.args_model() =~= Seq::<ArgValue>::empty());
        }
        g
    }

    /// Completes the run against a sink: hashes the reconstructed format
    /// string into the token, builds the entry record, and streams token
    /// plus accumulated arguments — through the no-argument fast path
    /// when nothing was accumulated. Fails with `InvalidContent`, the
    /// sink untouched, when domain or format string holds an interior
    /// zero byte; a sink failure is surfaced immediately as `Write`,
    /// leaving some whole-fragment prefix of the message written.
    pub fn finalize<S: Sink>(self, format: &str, sink: &mut S) -> (r: Result<
        (EntryRecord, usize),
        TokenizeError,
    >)
        requires
            self.domain.spec_bytes().len() + 1 <= u32::MAX,
            format.spec_bytes().len() + 1 <= u32::MAX,
            args_wf(self.args_model()),
            message_bytes(
                hash_bytes_spec(format.spec_bytes()),
                self.args_model(),
            ).len() <= usize::MAX,
        ensures
            match r {
                Ok((e, n)) => {
                    &&& !has_zero_byte(self.domain.spec_bytes())
                    &&& !has_zero_byte(format.spec_bytes())
                    &&& e.token == hash_bytes_spec(format.spec_bytes())
                    &&& e.domain@ == self.domain.spec_bytes()
                    &&& e.text@ == format.spec_bytes()
                    &&& e.wf()
                    &&& final(sink).contents() == old(sink).contents() + message_bytes(
                        hash_bytes_spec(format.spec_bytes()),
                        self.args_model(),
                    )
                    &&& n == message_bytes(
                        hash_bytes_spec(format.spec_bytes()),
                        self.args_model(),
                    ).len()
                },
                Err(err) => {
                    &&& ((has_zero_byte(self.domain.spec_bytes()) || has_zero_byte(
                        format.spec_bytes(),
                    )) ==> (err == TokenizeError::InvalidContent && final(sink).contents() == old(
                        sink,
                    ).contents()))
                    &&& ((!has_zero_byte(self.domain.spec_bytes()) && !has_zero_byte(
                        format.spec_bytes(),
                    )) ==> (err == TokenizeError::Write && (final(sink).contents() == old(
                        sink,
                    ).contents() || exists|k: int|
                        0 <= k <= self.args_model().len() && final(sink).contents() == old(
                            sink,
                        ).contents() + message_bytes(
                            hash_bytes_spec(format.spec_bytes()),
                            self.args_model().take(k),
                        ))))
                },
            },
    {
        let entry = match build_entry(self.domain, format) {
            Ok(e) => e,
            Err(e) => {
                return Err(e);
            },
        };
        let token = entry.token;
        if self.args.len() == 0 {
            proof {
                assert(self.args_model() =~= Seq::<ArgValue>::empty());
            }
            match tokenize_to_writer_no_args(sink, token) {
                Ok(n) => Ok((entry, n)),
                Err(e) => Err(e),
            }
        } else {
            match tokenize_to_writer(sink, token, self.args.as_slice()) {
                Ok(n) => Ok((entry, n)),
                Err(e) => Err(e),
            }
        }
    }
}

impl<'a> Generator<'a> for WriterGenerator<'a> {
    open spec fn args_model(&self) -> Seq<ArgValue> {
        args_view(self.args@)
    }

    fn string_fragment(&mut self, _fragment: &str)
        ensures
            final(self).domain == old(self).domain,
    {
        proof {
            assert(self.args_model() =~= old(self).args_model());
        }
    }

    fn integer_conversion(&mut self, value: i32)
        ensures
            final(self).domain == old(self).domain,
    {
        self.args.push(Argument::Varint(value));
        proof {
            assert(self.args_model() =~= old(self).args_model().push(ArgValue::Varint(value)));
        }
    }

    fn string_conversion(&mut self, value: &'a str)
        ensures
            final(self).domain == old(self).domain,
    {
        self.args.push(Argument::String(value));
        proof {
            assert(self.args_model() =~= old(self).args_model().push(
                ArgValue::Str(value.spec_bytes()),
            ));
        }
    }

    fn char_conversion(&mut self, value: u8)
        ensures
            final(self).domain == old(self).domain,
    {
        self.args.push(Argument::Char(value));
        proof {
            assert(self.args_model() =~= old(self).args_model().push(ArgValue::Char(value)));
        }
    }
}

/// The two variants are interchangeable from a decoder's point of view:
/// finalized over the same format string and the same accumulated
/// arguments, the buffer variant's bytes and the bytes a sink accepted
/// from the writer variant are the same wire bytes.
pub proof fn lemma_variants_agree(
    token: u32,
    args: Seq<ArgValue>,
    buffered: Seq<u8>,
    streamed: Seq<u8>,
)
    requires
        buffered == message_bytes(token, args),
        streamed == message_bytes(token, args),
    ensures
        buffered == streamed,
{
}

} // verus!
