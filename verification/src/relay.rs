//! The relay: its line buffer, its write discipline, and the four-phase
//! protocol state machine. Reading the generator's stream and writing to the
//! consumer are left to the caller; every function here takes the text read
//! and returns the exact text to write.

use vstd::prelude::*;
use vstd::string::StrSliceExecFns;
use vstd::string::StringExecFns;

use crate::block::msg_view;
use crate::block::spec_message_line;
use crate::block::Block;
use crate::errors::DecodeError;
use crate::header::acc_to_header;
use crate::header::acc_too_large;
use crate::header::parse_header_s;
use crate::header::spec_encode_header;
use crate::header::spec_with_click;
use crate::header::Header;
use crate::text::push_char;
use crate::text::terminate_record;
use crate::text::with_newline;

verus! {

/// The phase of the protocol run. Each of the first three forwards exactly
/// one line and moves on; the last repeats until the stream ends.
#[derive(Debug, Clone, Copy, PartialEq, Eq, Structural)]
pub enum RelayState {
    /// The next line is the header: decoded, rewritten, re-encoded.
    HeaderExchange,
    /// The next line opens the unbounded array; forwarded verbatim.
    ArrayOpen,
    /// The next line is the first element, the only one with no leading
    /// separator; forwarded verbatim.
    FirstElement,
    /// Every further line is forwarded verbatim.
    SteadyState,
}

/// The phase that follows a successful transition.
pub open spec fn spec_next_state(st: RelayState) -> RelayState {
    match st {
        RelayState::HeaderExchange => RelayState::ArrayOpen,
        RelayState::ArrayOpen => RelayState::FirstElement,
        RelayState::FirstElement => RelayState::SteadyState,
        RelayState::SteadyState => RelayState::SteadyState,
    }
}

/// The relay's own state: the configuration-file path to hand the generator,
/// the line buffer reused across reads, and the protocol phase.
pub struct R3Status {
    pub config_file: Option<String>,
    pub buffer: String,
    pub state: RelayState,
}

impl R3Status {
    /// A fresh relay: empty buffer, no configuration file, header pending.
    pub fn new() -> (r: R3Status)
        ensures
            r.config_file is None,
            r.buffer@ == Seq::<char>::empty(),
            r.state == RelayState::HeaderExchange,
    {
        R3Status { config_file: None, buffer: String::new(), state: RelayState::HeaderExchange }
    }

    /// Remembers the configuration-file path to pass to the generator.
    pub fn config_file(&mut self, config: &str)
        ensures
            final(self).config_file matches Some(c) && c@ == config@,
            final(self).buffer == old(self).buffer,
            final(self).state == old(self).state,
    {
        self.config_file = Some(config.to_owned());
    }

    /// Empties the line buffer.
    pub fn clear(&mut self)
        ensures
            final(self).buffer@ == Seq::<char>::empty(),
            final(self).config_file == old(self).config_file,
            final(self).state == old(self).state,
    {
        self.buffer = String::new();
    }

    /// Appends one read chunk to the line buffer, as a read does.
    pub fn append_chunk(&mut self, chunk: &str)
        ensures
            final(self).buffer@ == old(self).buffer@ + chunk@,
            final(self).config_file == old(self).config_file,
            final(self).state == old(self).state,
    {
        self.buffer.append(chunk);
    }

    /// Takes the buffered record, terminated by exactly one newline, and
    /// leaves the buffer empty.
    pub fn flush_buffer(&mut self) -> (out: String)
        ensures
            out@ == with_newline(old(self).buffer@),
            final(self).buffer@ == Seq::<char>::empty(),
            final(self).config_file == old(self).config_file,
            final(self).state == old(self).state,
    {
        let record = self.buffer.clone();
        self.clear();
        terminate_record(record)
    }

    /// Forwards one read line verbatim: what was buffered plus the chunk,
    /// with newline termination guaranteed; the buffer is left empty.
    pub fn pipe_line(&mut self, chunk: &str) -> (out: String)
        ensures
            out@ == with_newline(old(self).buffer@ + chunk@),
            final(self).buffer@ == Seq::<char>::empty(),
            final(self).config_file == old(self).config_file,
            final(self).state == old(self).state,
    {
        self.append_chunk(chunk);
        self.flush_buffer()
    }

    /// Rewrites the header line: decodes it, forces the click-events flag on,
    /// and returns the re-encoded line with newline termination. On a line
    /// that does not decode, returns the error and leaves the record in the
    /// buffer; nothing is then to be written.
    pub fn pipe_header(&mut self, chunk: &str) -> (r: Result<String, DecodeError>)
        ensures
            final(self).config_file == old(self).config_file,
            final(self).state == old(self).state,
            match r {
                Ok(out) => {
                    &&& parse_header_s(old(self).buffer@ + chunk@) matches Some(f)
                    &&& f.version is Some
                    &&& !acc_too_large(f)
                    &&& out@ == with_newline(
                        spec_encode_header(spec_with_click(acc_to_header(f), true)),
                    )
                    &&& final(self).buffer@ == Seq::<char>::empty()
                },
                Err(e) => {
                    &&& final(self).buffer@ == old(self).buffer@ + chunk@
                    &&& match e {
                        DecodeError::Malformed(t) => t@ == old(self).buffer@ + chunk@
                            && parse_header_s(old(self).buffer@ + chunk@) is None,
                        DecodeError::MissingVersion(t) => t@ == old(self).buffer@ + chunk@ && (
                        parse_header_s(old(self).buffer@ + chunk@) matches Some(f)
                            && f.version is None),
                        DecodeError::NumberTooLarge(t) => t@ == old(self).buffer@ + chunk@ && (
                        parse_header_s(old(self).buffer@ + chunk@) matches Some(f)
                            && f.version is Some && acc_too_large(f)),
                        _ => false,
                    }
                },
            },
    {
        self.append_chunk(chunk);
        match Header::decode(self.buffer.as_str()) {
            Err(e) => Err(e),
            Ok(h) => {
                let h2 = h.with_click_events(true);
                self.buffer = h2.encode();
                Ok(self.flush_buffer())
            },
        }
    }

    /// Authors a synthetic message: the text wrapped as the `full_text` of a
    /// single default block, encoded as a one-element array, terminated by a
    /// newline, followed by a bare comma with nothing after it.
    pub fn write_msg(&mut self, msg: &str) -> (out: String)
        ensures
            out@ == spec_message_line(msg@) + seq!['\n', ','],
            final(self).buffer@ == Seq::<char>::empty(),
            final(self).config_file == old(self).config_file,
            final(self).state == old(self).state,
    {
        let mut m = Block::default();
        m.full_text = msg.to_owned();
        proof {
            assert(m@ == msg_view(msg@));
        }
        let enc = m.encode();
        let mut line = String::from_str("[");
        line.append(enc.as_str());
        line.append("]");
        proof {
            reveal_strlit("[");
            reveal_strlit("]");
            assert(line@ == spec_message_line(msg@));
            assert(line@.len() > 0);
            assert(line@.last() == ']');
        }
        self.buffer = line;
        let mut out = self.flush_buffer();
        // the bare array separator, deliberately unterminated
        push_char(&mut out, ',');
        proof {
            assert(out@ =~= spec_message_line(msg@) + seq!['\n', ',']);
        }
        out
    }

    /// One transition of the protocol state machine: hands in the line just
    /// read, gets back the exact text to write. The header phase may refuse
    /// the line; every later phase forwards it verbatim.
    pub fn step(&mut self, chunk: &str) -> (r: Result<String, DecodeError>)
        ensures
            final(self).config_file == old(self).config_file,
            r is Ok ==> final(self).state == spec_next_state(old(self).state),
            r is Err ==> final(self).state == old(self).state,
            old(self).state != RelayState::HeaderExchange ==> (r matches Ok(out) && out@
                == with_newline(old(self).buffer@ + chunk@) && final(self).buffer@ == Seq::<
                char,
            >::empty()),
            old(self).state == RelayState::HeaderExchange ==> match r {
                Ok(out) => {
                    &&& parse_header_s(old(self).buffer@ + chunk@) matches Some(f)
                    &&& f.version is Some
                    &&& !acc_too_large(f)
                    &&& out@ == with_newline(
                        spec_encode_header(spec_with_click(acc_to_header(f), true)),
                    )
                    &&& final(self).buffer@ == Seq::<char>::empty()
                },
                Err(e) => {
                    &&& final(self).buffer@ == old(self).buffer@ + chunk@
                    &&& match e {
                        DecodeError::Malformed(t) => t@ == old(self).buffer@ + chunk@
                            && parse_header_s(old(self).buffer@ + chunk@) is None,
                        DecodeError::MissingVersion(t) => t@ == old(self).buffer@ + chunk@ && (
                        parse_header_s(old(self).buffer@ + chunk@) matches Some(f)
                            && f.version is None),
                        DecodeError::NumberTooLarge(t) => t@ == old(self).buffer@ + chunk@ && (
                        parse_header_s(old(self).buffer@ + chunk@) matches Some(f)
                            && f.version is Some && acc_too_large(f)),
                        _ => false,
                    }
                },
            },
    {
        match self.state {
            RelayState::HeaderExchange => {
                match self.pipe_header(chunk) {
                    Ok(out) => {
                        self.state = RelayState::ArrayOpen;
                        Ok(out)
                    },
                    Err(e) => Err(e),
                }
            },
            RelayState::ArrayOpen => {
                let out = self.pipe_line(chunk);
                self.state = RelayState::FirstElement;
                Ok(out)
            },
            RelayState::FirstElement => {
                let out = self.pipe_line(chunk);
                self.state = RelayState::SteadyState;
                Ok(out)
            },
            RelayState::SteadyState => Ok(self.pipe_line(chunk)),
        }
    }
}

/// The records forwarded for a sequence of steady-state reads, in order.
pub open spec fn spec_forwarded(lines: Seq<Seq<char>>) -> Seq<Seq<char>>
    decreases lines.len(),
{
    if lines.len() == 0 {
        Seq::empty()
    } else {
        seq![with_newline(lines[0])] + spec_forwarded(lines.drop_first())
    }
}

/// Steady-state forwarding preserves order and volume: for N lines read, N
/// records are written, the i-th record being the i-th line unchanged but
/// for newline termination.
pub proof fn lemma_steady_state_order_volume(lines: Seq<Seq<char>>)
    ensures
        spec_forwarded(lines).len() == lines.len(),
        forall|i: int|
            0 <= i < lines.len() ==> spec_forwarded(lines)[i] == with_newline(lines[i]),
    decreases lines.len(),
{
    if lines.len() > 0 {
        lemma_steady_state_order_volume(lines.drop_first());
        assert forall|i: int|
            0 <= i < lines.len() implies spec_forwarded(lines)[i] == with_newline(
            lines[i],
        ) by {
            if i > 0 {
                assert(spec_forwarded(lines)[i] == spec_forwarded(lines.drop_first())[i - 1]);
                assert(lines.drop_first()[i - 1] == lines[i]);
            }
        }
    }
}

} // verus!
