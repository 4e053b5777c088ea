//! XML text: escaping, and what may stand in a document.

use vstd::prelude::*;

use crate::text;

verus! {

/// The character may stand in an XML document: the `Char` production of XML
/// 1.0.
pub open spec fn is_xml_char(c: char) -> bool {
    ||| c == '\t'
    ||| c == '\n'
    ||| c == '\r'
    ||| ('\u{20}' <= c && c <= '\u{D7FF}')
    ||| ('\u{E000}' <= c && c <= '\u{FFFD}')
    ||| ('\u{10000}' <= c && c <= '\u{10FFFF}')
}

/// What a character is written as: an entity for those with a meaning of their
/// own, nothing for those that may not stand in a document.
pub open spec fn escaped_char(c: char) -> Seq<char> {
    if c == '&' {
        "&amp;"@
    } else if c == '<' {
        "&lt;"@
    } else if c == '>' {
        "&gt;"@
    } else if c == '"' {
        "&quot;"@
    } else if is_xml_char(c) {
        seq![c]
    } else {
        Seq::empty()
    }
}

/// The text with each character written so.
pub open spec fn escaped(s: Seq<char>) -> Seq<char>
    decreases s.len(),
{
    if s.len() == 0 {
        Seq::empty()
    } else {
        escaped(s.drop_last()) + escaped_char(s.last())
    }
}

/// Every character may stand in a document.
#[verifier::opaque]
pub open spec fn legal(s: Seq<char>) -> bool {
    forall|i: int| 0 <= i < s.len() ==> is_xml_char(#[trigger] s[i])
}

/// Nothing in the text opens or closes markup or ends an attribute.
pub open spec fn inert(s: Seq<char>) -> bool {
    forall|i: int| 0 <= i < s.len() ==> #[trigger] s[i] != '<' && s[i] != '>' && s[i] != '"'
}

/// Escapes XML entities and drops characters that may not stand in a document,
/// not even as references.
pub fn xml_escape(s: &str) -> (r: String)
    ensures
        r@ == escaped(s@),
{
    let mut out = String::new();
    let mut i: usize = 0;
    let a = text::to_chars(s);
    proof {
        assert(out@ =~= escaped(s@.take(0)));
    }
    while i < a.len()
        invariant
            i <= a@.len(),
            a@ == s@,
            out@ == escaped(s@.take(i as int)),
        decreases a@.len() - i,
    {
        let c = a[i];
        let ghost before = out@;
        proof {
            assert(s@.take(i + 1).drop_last() =~= s@.take(i as int));
            assert(s@.take(i + 1).last() == c);
        }
        match c {
            '&' => out.append("&amp;"),
            '<' => out.append("&lt;"),
            '>' => out.append("&gt;"),
            '"' => out.append("&quot;"),
            '\t' | '\n' | '\r' | '\u{20}'..='\u{D7FF}' | '\u{E000}'..='\u{FFFD}'
            | '\u{10000}'..='\u{10FFFF}' => out.push(c),
            _ => {},
        }
        proof {
            assert(out@ =~= before + escaped_char(c));
        }
        i = i + 1;
    }
    proof {
        assert(s@.take(i as int) =~= s@);
    }
    out
}

/// Legal texts in a row are legal.
pub broadcast proof fn lemma_legal_concat(a: Seq<char>, b: Seq<char>)
    requires
        legal(a),
        legal(b),
    ensures
        legal(#[trigger] (a + b)),
{
    reveal(legal);
}

proof fn lemma_escaped_char(c: char)
    ensures
        legal(escaped_char(c)),
        inert(escaped_char(c)),
{
    reveal(legal);
    reveal_strlit("&amp;");
    reveal_strlit("&lt;");
    reveal_strlit("&gt;");
    reveal_strlit("&quot;");
}

/// Escaped text may stand in a document, whatever it was made of, and neither
/// opens markup nor ends an attribute.
pub broadcast proof fn escaped_text_is_legal(s: Seq<char>)
    ensures
        legal(#[trigger] escaped(s)),
        inert(escaped(s)),
    decreases s.len(),
{
    if s.len() == 0 {
        reveal(legal);
    } else {
        escaped_text_is_legal(s.drop_last());
        lemma_escaped_char(s.last());
        lemma_legal_concat(escaped(s.drop_last()), escaped_char(s.last()));
    }
}

/// A number may stand in a document.
pub broadcast proof fn decimal_is_legal(n: nat)
    ensures
        legal(#[trigger] text::decimal(n)),
    decreases n,
{
    reveal(legal);
    if n >= 10 {
        decimal_is_legal(n / 10);
    }
}

/// Text without special or forbidden characters is left as it is.
pub proof fn plain_text_is_unchanged(s: Seq<char>)
    requires
        legal(s),
        inert(s),
        forall|i: int| 0 <= i < s.len() ==> s[i] != '&',
    ensures
        escaped(s) == s,
    decreases s.len(),
{
    reveal(legal);
    if s.len() > 0 {
        plain_text_is_unchanged(s.drop_last());
        assert(is_xml_char(s[s.len() - 1]));
        assert(escaped(s) =~= s);
    } else {
        assert(escaped(s) =~= s);
    }
}

} // verus!
