//! A status block, and its JSON encoding. The relay only ever encodes a
//! block itself when it authors a synthetic message; generator blocks pass
//! through as opaque text and are never decoded.

use vstd::prelude::*;
use vstd::string::StrSliceExecFns;
use vstd::string::StringExecFns;

use crate::align::align_token;
use crate::align::Alignment;
use crate::digits::encode_usize;
use crate::digits::spec_digits;
use crate::text::push_char;

verus! {

/// One status block of the wire protocol.
#[derive(Debug, PartialEq, Eq)]
pub struct Block {
    pub full_text: String,
    pub short_text: Option<String>,
    pub color: Option<String>,
    pub min_width: Option<usize>,
    pub align: Option<Alignment>,
    pub urgent: Option<bool>,
    pub name: Option<String>,
    pub instance: Option<String>,
    pub separator: Option<bool>,
    pub separator_block_width: Option<usize>,
}

/// The plain values of a block's fields.
pub struct BlockView {
    pub full_text: Seq<char>,
    pub short_text: Option<Seq<char>>,
    pub color: Option<Seq<char>>,
    pub min_width: Option<usize>,
    pub align: Option<Alignment>,
    pub urgent: Option<bool>,
    pub name: Option<Seq<char>>,
    pub instance: Option<Seq<char>>,
    pub separator: Option<bool>,
    pub separator_block_width: Option<usize>,
}

impl View for Block {
    type V = BlockView;

    open spec fn view(&self) -> BlockView {
        BlockView {
            full_text: self.full_text@,
            short_text: match self.short_text {
                Some(s) => Some(s@),
                None => None,
            },
            color: match self.color {
                Some(s) => Some(s@),
                None => None,
            },
            min_width: self.min_width,
            align: self.align,
            urgent: self.urgent,
            name: match self.name {
                Some(s) => Some(s@),
                None => None,
            },
            instance: match self.instance {
                Some(s) => Some(s@),
                None => None,
            },
            separator: self.separator,
            separator_block_width: self.separator_block_width,
        }
    }
}

/// How one character is written inside a JSON string literal.
pub open spec fn escape_char(c: char) -> Seq<char> {
    if c == '"' {
        "\\\""@
    } else if c == '\\' {
        "\\\\"@
    } else if c == '\n' {
        "\\n"@
    } else if c == '\r' {
        "\\r"@
    } else if c == '\t' {
        "\\t"@
    } else {
        seq![c]
    }
}

/// The text with each character escaped as JSON requires.
pub open spec fn escaped(s: Seq<char>) -> Seq<char>
    decreases s.len(),
{
    if s.len() == 0 {
        Seq::empty()
    } else {
        escape_char(s[0]) + escaped(s.drop_first())
    }
}

/// The JSON string literal holding `s`.
pub open spec fn json_string(s: Seq<char>) -> Seq<char> {
    "\""@ + escaped(s) + "\""@
}

proof fn lemma_escaped_snoc(t: Seq<char>, c: char)
    ensures
        escaped(t.push(c)) == escaped(t) + escape_char(c),
    decreases t.len(),
{
    if t.len() == 0 {
        assert(t.push(c)[0] == c);
        assert(t.push(c).drop_first() =~= Seq::<char>::empty());
        assert(escaped(t.push(c).drop_first()) == Seq::<char>::empty());
        assert(escaped(t.push(c)) == escape_char(c) + Seq::<char>::empty());
        assert(escaped(t) == Seq::<char>::empty());
        assert(escape_char(c) + Seq::<char>::empty() =~= Seq::<char>::empty() + escape_char(c));
        assert(escaped(t.push(c)) =~= escaped(t) + escape_char(c));
    } else {
        assert(t.push(c)[0] == t[0]);
        assert(t.push(c).drop_first() =~= t.drop_first().push(c));
        lemma_escaped_snoc(t.drop_first(), c);
        assert(escaped(t.push(c)) =~= escaped(t) + escape_char(c));
    }
}

/// Writes `s` as a JSON string literal, quotes included.
pub fn encode_json_string(s: &str) -> (r: String)
    ensures
        r@ == json_string(s@),
{
    let n = s.unicode_len();
    let mut out = String::from_str("\"");
    let mut i: usize = 0;
    while i < n
        invariant
            i <= n,
            n == s@.len(),
            out@ == "\""@ + escaped(s@.take(i as int)),
        decreases n - i,
    {
        let c = s.get_char(i);
        if c == '"' {
            out.append("\\\"");
        } else if c == '\\' {
            out.append("\\\\");
        } else if c == '\n' {
            out.append("\\n");
        } else if c == '\r' {
            out.append("\\r");
        } else if c == '\t' {
            out.append("\\t");
        } else {
            push_char(&mut out, c);
        }
        proof {
            assert(s@.take(i as int + 1) =~= s@.take(i as int).push(s@[i as int]));
            lemma_escaped_snoc(s@.take(i as int), s@[i as int]);
            if !(s@[i as int] == '"' || s@[i as int] == '\\' || s@[i as int] == '\n' || s@[
                i as int
            ] == '\r' || s@[i as int] == '\t') {
                assert(escape_char(s@[i as int]) =~= seq![s@[i as int]]);
            }
            assert(out@ =~= "\""@ + escaped(s@.take(i as int + 1)));
        }
        i += 1;
    }
    out.append("\"");
    proof {
        assert(s@.take(n as int) =~= s@);
        assert(out@ =~= json_string(s@));
    }
    out
}

pub open spec fn opt_str_text(o: Option<Seq<char>>) -> Seq<char> {
    match o {
        Some(t) => json_string(t),
        None => "null"@,
    }
}

pub open spec fn opt_num_text(o: Option<usize>) -> Seq<char> {
    match o {
        Some(v) => spec_digits(v as nat),
        None => "null"@,
    }
}

pub open spec fn opt_bool_text(o: Option<bool>) -> Seq<char> {
    match o {
        Some(true) => "true"@,
        Some(false) => "false"@,
        None => "null"@,
    }
}

pub open spec fn opt_align_text(o: Option<Alignment>) -> Seq<char> {
    match o {
        Some(a) => "\""@ + align_token(a) + "\""@,
        None => "null"@,
    }
}

/// The encoding of a block: every field written in declaration order, absent
/// optional fields written as `null`.
pub open spec fn spec_encode_block(b: BlockView) -> Seq<char> {
    "{\"full_text\":"@ + json_string(b.full_text) + ",\"short_text\":"@ + opt_str_text(
        b.short_text,
    ) + ",\"color\":"@ + opt_str_text(b.color) + ",\"min_width\":"@ + opt_num_text(b.min_width)
        + ",\"align\":"@ + opt_align_text(b.align) + ",\"urgent\":"@ + opt_bool_text(b.urgent)
        + ",\"name\":"@ + opt_str_text(b.name) + ",\"instance\":"@ + opt_str_text(b.instance)
        + ",\"separator\":"@ + opt_bool_text(b.separator) + ",\"separator_block_width\":"@
        + opt_num_text(b.separator_block_width) + "}"@
}

/// The block a synthetic message is wrapped in: all defaults but the text.
pub open spec fn msg_view(m: Seq<char>) -> BlockView {
    BlockView {
        full_text: m,
        short_text: None,
        color: None,
        min_width: None,
        align: None,
        urgent: None,
        name: None,
        instance: None,
        separator: None,
        separator_block_width: None,
    }
}

/// The one-element array holding the block of a synthetic message.
pub open spec fn spec_message_line(m: Seq<char>) -> Seq<char> {
    "["@ + spec_encode_block(msg_view(m)) + "]"@
}

fn append_opt_string(out: &mut String, o: &Option<String>)
    ensures
        final(out)@ == old(out)@ + opt_str_text(
            match *o {
                Some(s) => Some(s@),
                None => None,
            },
        ),
{
    match o {
        Some(s) => {
            let e = encode_json_string(s.as_str());
            out.append(e.as_str());
        },
        None => {
            out.append("null");
        },
    }
}

fn append_opt_num(out: &mut String, o: &Option<usize>)
    ensures
        final(out)@ == old(out)@ + opt_num_text(*o),
{
    match o {
        Some(v) => {
            let e = encode_usize(*v);
            out.append(e.as_str());
        },
        None => {
            out.append("null");
        },
    }
}

fn append_opt_bool(out: &mut String, o: &Option<bool>)
    ensures
        final(out)@ == old(out)@ + opt_bool_text(*o),
{
    match o {
        Some(true) => {
            out.append("true");
        },
        Some(false) => {
            out.append("false");
        },
        None => {
            out.append("null");
        },
    }
}

fn append_opt_align(out: &mut String, o: &Option<Alignment>)
    ensures
        final(out)@ == old(out)@ + opt_align_text(*o),
{
    match o {
        Some(a) => {
            out.append("\"");
            out.append(a.encode());
            out.append("\"");
        },
        None => {
            out.append("null");
        },
    }
}

impl Block {
    /// Serializes this block as a single-line JSON object.
    #[verifier::rlimit(80)]
    pub fn encode(&self) -> (r: String)
        ensures
            r@ == spec_encode_block(self@),
    {
        let mut out = String::from_str("{\"full_text\":");
        let e = encode_json_string(self.full_text.as_str());
        out.append(e.as_str());
        out.append(",\"short_text\":");
        append_opt_string(&mut out, &self.short_text);
        out.append(",\"color\":");
        append_opt_string(&mut out, &self.color);
        out.append(",\"min_width\":");
        append_opt_num(&mut out, &self.min_width);
        out.append(",\"align\":");
        append_opt_align(&mut out, &self.align);
        out.append(",\"urgent\":");
        append_opt_bool(&mut out, &self.urgent);
        out.append(",\"name\":");
        append_opt_string(&mut out, &self.name);
        out.append(",\"instance\":");
        append_opt_string(&mut out, &self.instance);
        out.append(",\"separator\":");
        append_opt_bool(&mut out, &self.separator);
        out.append(",\"separator_block_width\":");
        append_opt_num(&mut out, &self.separator_block_width);
        out.append("}");
        proof {
            assert(out@ =~= spec_encode_block(self@));
        }
        out
    }
}

impl Default for Block {
    /// The block with empty text and every optional field absent.
    fn default() -> (r: Block)
        ensures
            r@ == msg_view(Seq::<char>::empty()),
    {
        Block {
            full_text: String::new(),
            short_text: None,
            color: None,
            min_width: None,
            align: None,
            urgent: None,
            name: None,
            instance: None,
            separator: None,
            separator_block_width: None,
        }
    }
}

} // verus!
