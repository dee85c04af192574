//! Escaping of text written into HTML and Markdown output.

use vstd::prelude::*;
use vstd::string::*;

use crate::render::common_text::push_char;

verus! {

/// How one character of plain text is written into HTML.
pub open spec fn html_escape_char(c: char) -> Seq<char> {
    if c == '&' {
        "&amp;"@
    } else if c == '<' {
        "&lt;"@
    } else if c == '>' {
        "&gt;"@
    } else if c == '"' {
        "&quot;"@
    } else if c == '\'' {
        "&#39;"@
    } else if c == '\\' {
        "&#92;"@
    } else if c == '/' {
        "&#47;"@
    } else {
        seq![c]
    }
}

/// How one character of plain text is written into Markdown: the
/// Markdown punctuation is backslash-escaped, the HTML escapes apply as
/// in HTML.
pub open spec fn md_escape_char(c: char) -> Seq<char> {
    if c == '*' {
        "\\*"@
    } else if c == '-' {
        "\\-"@
    } else if c == '`' {
        "\\`"@
    } else if c == '_' {
        "\\_"@
    } else if c == '(' {
        "\\("@
    } else if c == ')' {
        "\\)"@
    } else if c == '[' {
        "\\["@
    } else if c == ']' {
        "\\]"@
    } else {
        html_escape_char(c)
    }
}

/// A whole string escaped for HTML, character by character.
pub open spec fn html_escaped(s: Seq<char>) -> Seq<char>
    decreases s.len(),
{
    if s.len() == 0 {
        Seq::empty()
    } else {
        html_escaped(s.drop_last()) + html_escape_char(s.last())
    }
}

/// A whole string escaped for Markdown, character by character.
pub open spec fn md_escaped(s: Seq<char>) -> Seq<char>
    decreases s.len(),
{
    if s.len() == 0 {
        Seq::empty()
    } else {
        md_escaped(s.drop_last()) + md_escape_char(s.last())
    }
}

/// Appends the HTML-escaped form of `input` to `out`.
pub fn append_html_escaped(input: &str, out: &mut String)
    ensures
        final(out)@ == old(out)@ + html_escaped(input@),
{
    let ghost s = input@;
    let n = input.unicode_len();
    let mut i: usize = 0;
    proof {
        assert(out@ =~= old(out)@ + html_escaped(s.take(0)));
    }
    while i < n
        invariant
            s == input@,
            n == s.len(),
            0 <= i <= n,
            out@ == old(out)@ + html_escaped(s.take(i as int)),
        decreases n - i,
    {
        let c = input.get_char(i);
        if c == '&' {
            out.append("&amp;");
        } else if c == '<' {
            out.append("&lt;");
        } else if c == '>' {
            out.append("&gt;");
        } else if c == '"' {
            out.append("&quot;");
        } else if c == '\'' {
            out.append("&#39;");
        } else if c == '\\' {
            out.append("&#92;");
        } else if c == '/' {
            out.append("&#47;");
        } else {
            push_char(out, c);
        }
        proof {
            assert(s.take(i + 1).drop_last() =~= s.take(i as int));
            assert(s.take(i + 1).last() == s[i as int]);
            assert(out@ =~= old(out)@ + html_escaped(s.take(i + 1)));
        }
        i += 1;
    }
    proof {
        assert(s.take(n as int) =~= s);
    }
}

/// The HTML-escaped form of `input`.
pub fn escape_html(input: &str) -> (r: String)
    ensures
        r@ == html_escaped(input@),
{
    let mut out = String::new();
    append_html_escaped(input, &mut out);
    out
}

/// Appends the Markdown-escaped form of `input` to `out`.
pub fn append_md_escaped(input: &str, out: &mut String)
    ensures
        final(out)@ == old(out)@ + md_escaped(input@),
{
    let ghost s = input@;
    let n = input.unicode_len();
    let mut i: usize = 0;
    proof {
        assert(out@ =~= old(out)@ + md_escaped(s.take(0)));
    }
    while i < n
        invariant
            s == input@,
            n == s.len(),
            0 <= i <= n,
            out@ == old(out)@ + md_escaped(s.take(i as int)),
        decreases n - i,
    {
        let c = input.get_char(i);
        if c == '*' {
            out.append("\\*");
        } else if c == '-' {
            out.append("\\-");
        } else if c == '`' {
            out.append("\\`");
        } else if c == '_' {
            out.append("\\_");
        } else if c == '(' {
            out.append("\\(");
        } else if c == ')' {
            out.append("\\)");
        } else if c == '[' {
            out.append("\\[");
        } else if c == ']' {
            out.append("\\]");
        } else if c == '&' {
            out.append("&amp;");
        } else if c == '<' {
            out.append("&lt;");
        } else if c == '>' {
            out.append("&gt;");
        } else if c == '"' {
            out.append("&quot;");
        } else if c == '\'' {
            out.append("&#39;");
        } else if c == '\\' {
            out.append("&#92;");
        } else if c == '/' {
            out.append("&#47;");
        } else {
            push_char(out, c);
        }
        proof {
            assert(s.take(i + 1).drop_last() =~= s.take(i as int));
            assert(s.take(i + 1).last() == s[i as int]);
            assert(out@ =~= old(out)@ + md_escaped(s.take(i + 1)));
        }
        i += 1;
    }
    proof {
        assert(s.take(n as int) =~= s);
    }
}

/// The Markdown-escaped form of `input`.
pub fn escape_md(input: &str) -> (r: String)
    ensures
        r@ == md_escaped(input@),
{
    let mut out = String::new();
    append_md_escaped(input, &mut out);
    out
}

} // verus!
