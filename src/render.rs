use vstd::prelude::*;
use vstd::string::StringExecFns;
use crate::book::Sentence;
use crate::split::parts_view;

verus! {

/// What stands before each part.
#[derive(Clone, Debug, PartialEq, Eq)]
pub enum PartSeparator {
    /// A blank line.
    Blank,
    /// `## n ##` on a line of its own, `n` being the part's ordinal.
    Numbered,
    /// The template on a line of its own, each `{}` in it replaced by the
    /// part's ordinal.
    Template(String),
}

/// How parts are rendered.
#[derive(Clone, Debug, PartialEq, Eq)]
pub struct RenderOptions {
    pub separator: PartSeparator,
    /// Number parts from 0 rather than from 1.
    pub count_parts_from_zero: bool,
    /// Put `(positionInPart:positionInParagraph:globalIndex) ` before each
    /// sentence.
    pub view_index_sentence: bool,
}

/// The decimal digit `d`, for `d < 10`.
pub open spec fn digit_char(d: nat) -> char {
    seq!['0', '1', '2', '3', '4', '5', '6', '7', '8', '9'][d as int]
}

/// Decimal digits of `n`, without sign or padding.
pub open spec fn decimal(n: nat) -> Seq<char>
    decreases n,
{
    if n < 10 {
        seq![digit_char(n)]
    } else {
        decimal(n / 10).push(digit_char(n % 10))
    }
}

/// `t` with each `{}`, read from left to right, replaced by `n`.
pub open spec fn substitute(t: Seq<char>, n: Seq<char>) -> Seq<char>
    decreases t.len(),
{
    if t.len() == 0 {
        t
    } else if t.len() >= 2 && t[0] == '{' && t[1] == '}' {
        n + substitute(t.skip(2), n)
    } else {
        seq![t[0]] + substitute(t.skip(1), n)
    }
}

/// A line break.
pub open spec fn crlf() -> Seq<char> {
    seq!['\r', '\n']
}

/// Relies on std's `Display` of integers: decimal digits, no sign or padding.
#[verifier::external_body]
fn decimal_string(n: u64) -> (r: String)
    ensures
        r@ == decimal(n as nat),
{
    n.to_string()
}

/// Relies on `str::replace` of std: each non-overlapping match of `{}`, from
/// left to right, is replaced by `n`.
#[verifier::external_body]
fn replace_placeholder(t: &str, n: &str) -> (r: String)
    ensures
        r@ == substitute(t@, n@),
{
    t.replace("{}", n)
}

/// The ordinal shown for the part at position `k`.
pub open spec fn ordinal(opts: RenderOptions, k: nat) -> nat {
    if opts.count_parts_from_zero {
        k
    } else {
        k + 1
    }
}

/// What stands before the part with ordinal `n`.
pub open spec fn separator_text(sep: PartSeparator, n: nat) -> Seq<char> {
    match sep {
        PartSeparator::Blank => crlf() + crlf(),
        PartSeparator::Numbered => crlf() + seq!['#', '#', ' '] + decimal(n) + seq![' ', '#', '#'] + crlf(),
        PartSeparator::Template(t) => crlf() + substitute(t@, decimal(n)) + crlf(),
    }
}

/// A sentence as rendered, `c` sentences of its part having been rendered
/// before it.
pub open spec fn sentence_text(c: nat, s: Sentence, text: Seq<char>, view_index: bool) -> Seq<char> {
    let gap = if c == 0 {
        Seq::empty()
    } else if s.info.s_number == 0 {
        crlf()
    } else {
        seq![' ']
    };
    let label = if view_index {
        seq!['('] + decimal(c) + seq![':'] + decimal(s.info.s_number as nat) + seq![':']
            + decimal(s.info.index.0 as nat) + seq![')', ' ']
    } else {
        Seq::empty()
    };
    gap + label + text
}

/// The first `n` sentences of `part` as rendered, and how many of them had
/// a text. Sentences without text are left out.
pub open spec fn render_part(
    part: Seq<usize>,
    sentences: Seq<Sentence>,
    texts: Seq<Option<String>>,
    view_index: bool,
    n: nat,
) -> (Seq<char>, nat)
    decreases n,
{
    if n == 0 {
        (Seq::empty(), 0)
    } else {
        let (out, c) = render_part(part, sentences, texts, view_index, (n - 1) as nat);
        let j = part[n - 1] as int;
        if j < sentences.len() && j < texts.len() && texts[j] is Some {
            (out + sentence_text(c, sentences[j], texts[j]->0@, view_index), c + 1)
        } else {
            (out, c)
        }
    }
}

/// The first `n` parts as rendered, each after its separator.
pub open spec fn render_model(
    parts: Seq<Seq<usize>>,
    sentences: Seq<Sentence>,
    texts: Seq<Option<String>>,
    opts: RenderOptions,
    n: nat,
) -> Seq<char>
    decreases n,
{
    if n == 0 {
        Seq::empty()
    } else {
        let part = parts[n - 1];
        render_model(parts, sentences, texts, opts, (n - 1) as nat)
            + separator_text(opts.separator, ordinal(opts, (n - 1) as nat))
            + render_part(part, sentences, texts, opts.view_index_sentence, part.len()).0
    }
}

fn push_separator(out: &mut String, sep: &PartSeparator, n: u64)
    ensures
        final(out)@ == old(out)@ + separator_text(*sep, n as nat),
{
    let number = decimal_string(n);
    proof {
        reveal_strlit("\r\n");
        reveal_strlit("## ");
        reveal_strlit(" ##");
    }
    match sep {
        PartSeparator::Blank => {
            out.append("\r\n");
            out.append("\r\n");
        },
        PartSeparator::Numbered => {
            out.append("\r\n");
            out.append("## ");
            out.append(number.as_str());
            out.append(" ##");
            out.append("\r\n");
        },
        PartSeparator::Template(t) => {
            let filled = replace_placeholder(t.as_str(), number.as_str());
            out.append("\r\n");
            out.append(filled.as_str());
            out.append("\r\n");
        },
    }
    assert(final(out)@ =~= old(out)@ + separator_text(*sep, n as nat));
}

fn push_sentence(out: &mut String, c: usize, s: &Sentence, text: &String, view_index: bool)
    ensures
        final(out)@ == old(out)@ + sentence_text(c as nat, *s, text@, view_index),
{
    proof {
        reveal_strlit("\r\n");
        reveal_strlit(" ");
        reveal_strlit("(");
        reveal_strlit(":");
        reveal_strlit(") ");
    }
    if c > 0 {
        if s.info.s_number == 0 {
            out.append("\r\n");
        } else {
            out.append(" ");
        }
    }
    if view_index {
        out.append("(");
        out.append(decimal_string(c as u64).as_str());
        out.append(":");
        out.append(decimal_string(s.info.s_number as u64).as_str());
        out.append(":");
        out.append(decimal_string(s.info.index.0 as u64).as_str());
        out.append(") ");
    }
    out.append(text.as_str());
    assert(final(out)@ =~= old(out)@ + sentence_text(c as nat, *s, text@, view_index));
}

/// Renders the parts: each part after its separator, its sentences with
/// text in order, a line break before one that opens a paragraph and a
/// space before any other, but for the first of the part. `texts[i]` is the
/// text of `sentences[i]`; a sentence without text, or a position out of
/// range, is left out.
pub fn render_parts(
    parts: &Vec<Vec<usize>>,
    sentences: &Vec<Sentence>,
    texts: &Vec<Option<String>>,
    opts: &RenderOptions,
) -> (r: String)
    ensures
        r@ == render_model(parts_view(parts@), sentences@, texts@, *opts, parts.len() as nat),
{
    let ghost pv = parts_view(parts@);
    let mut out = String::new();
    let mut k: usize = 0;
    while k < parts.len()
        invariant
            pv == parts_view(parts@),
            k <= parts.len(),
            out@ == render_model(pv, sentences@, texts@, *opts, k as nat),
        decreases parts.len() - k,
    {
        let n: u64 = if opts.count_parts_from_zero { k as u64 } else { k as u64 + 1 };
        push_separator(&mut out, &opts.separator, n);
        let ghost head = out@;
        let part = &parts[k];
        assert(part@ == pv[k as int]);
        let mut j: usize = 0;
        let mut c: usize = 0;
        while j < part.len()
            invariant
                j <= part.len(),
                c <= j,
                (out@.subrange(head.len() as int, out@.len() as int), c as nat)
                    == render_part(part@, sentences@, texts@, opts.view_index_sentence, j as nat),
                head.len() <= out@.len(),
                out@.subrange(0, head.len() as int) == head,
            decreases part.len() - j,
        {
            let idx = part[j];
            let ghost before = out@;
            if idx < sentences.len() && idx < texts.len() {
                match &texts[idx] {
                    Some(t) => {
                        push_sentence(&mut out, c, &sentences[idx], t, opts.view_index_sentence);
                        c = c + 1;
                    },
                    None => {},
                }
            }
            assert(out@.subrange(0, head.len() as int) =~= head);
            assert(out@.subrange(head.len() as int, out@.len() as int) =~=
                render_part(part@, sentences@, texts@, opts.view_index_sentence, (j + 1) as nat).0);
            j = j + 1;
        }
        assert(out@ =~= head + render_part(part@, sentences@, texts@, opts.view_index_sentence, part.len() as nat).0);
        k = k + 1;
    }
    out
}

} // verus!
