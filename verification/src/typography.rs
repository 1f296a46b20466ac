//! Text admitted into the SVG output, and its XML escaping.
use vstd::prelude::*;
use crate::text::{chars_of, push_char, push_str};

verus! {

/// Unicode general category Cc: the C0 controls, DEL, and the C1 controls.
pub open spec fn is_control_char(c: char) -> bool {
    (c as u32) <= 0x1f || (0x7f <= (c as u32) && (c as u32) <= 0x9f)
}

/// Whether `c` is a control character (category Cc), the test that std's
/// `char::is_control` makes.
fn is_control(c: char) -> (r: bool)
    ensures
        r == is_control_char(c),
{
    let u = c as u32;
    u <= 0x1f || (0x7f <= u && u <= 0x9f)
}

/// A character that XML 1.0 text cannot carry: a control character other than
/// tab, line feed and carriage return, or one of the two noncharacters U+FFFE
/// and U+FFFF.
pub open spec fn forbidden_char(c: char) -> bool {
    c == '\u{FFFE}' || c == '\u{FFFF}' || (is_control_char(c) && c != '\n' && c != '\t' && c != '\r')
}

/// The refused characters by code point: U+0000..U+001F other than tab
/// (U+0009), line feed (U+000A) and carriage return (U+000D); DEL and the
/// C1 controls U+007F..U+009F; and U+FFFE, U+FFFF. Everything else, every
/// character beyond U+FFFF (emoji among them) included, is admitted.
pub proof fn lemma_forbidden_exactly(c: char)
    ensures
        forbidden_char(c) <==> ({
            let u = c as u32;
            ||| (u <= 0x1f && u != 0x09 && u != 0x0a && u != 0x0d)
            ||| (0x7f <= u && u <= 0x9f)
            ||| u == 0xfffe
            ||| u == 0xffff
        }),
        (c as u32) > 0xffff ==> !forbidden_char(c),
{
}

/// A text is refused exactly when one of its characters is: a text whose
/// characters are all admitted code points is valid.
pub proof fn lemma_valid_text_by_code_points(s: Seq<char>)
    ensures
        (forall|i: int| 0 <= i < s.len() ==> !forbidden_char(#[trigger] s[i]))
            <==> (forall|i: int| 0 <= i < s.len() ==> {
                let u = #[trigger] s[i] as u32;
                &&& !(u <= 0x1f && u != 0x09 && u != 0x0a && u != 0x0d)
                &&& !(0x7f <= u && u <= 0x9f)
                &&& u != 0xfffe
                &&& u != 0xffff
            }),
{
    assert forall|i: int| 0 <= i < s.len() implies #[trigger] forbidden_char(s[i]) == {
        let u = s[i] as u32;
        ||| (u <= 0x1f && u != 0x09 && u != 0x0a && u != 0x0d)
        ||| (0x7f <= u && u <= 0x9f)
        ||| u == 0xfffe
        ||| u == 0xffff
    } by {
        lemma_forbidden_exactly(s[i]);
    }
}

/// True when the text holds no character that SVG text cannot carry.
pub fn valid_text(s: &str) -> (ok: bool)
    ensures
        ok == (forall|i: int| 0 <= i < s@.len() ==> !forbidden_char(#[trigger] s@[i])),
{
    let cs = chars_of(s);
    let n = cs.len();
    let mut i: usize = 0;
    while i < n
        invariant
            n == cs@.len(),
            cs@ == s@,
            i <= n,
            forall|k: int| 0 <= k < i ==> !forbidden_char(#[trigger] s@[k]),
        decreases n - i,
    {
        let c = cs[i];
        if c == '\u{FFFE}' || c == '\u{FFFF}' || (is_control(c) && c != '\n' && c != '\t' && c != '\r') {
            assert(forbidden_char(s@[i as int]));
            return false;
        }
        i = i + 1;
    }
    true
}

/// The XML form of one character: the four markup characters become entities.
pub open spec fn escape_char(c: char) -> Seq<char> {
    if c == '&' {
        "&amp;"@
    } else if c == '<' {
        "&lt;"@
    } else if c == '>' {
        "&gt;"@
    } else if c == '"' {
        "&quot;"@
    } else {
        seq![c]
    }
}

/// The XML form of a text: every character escaped in order.
pub open spec fn escape_text(s: Seq<char>) -> Seq<char>
    decreases s.len(),
{
    if s.len() == 0 {
        seq![]
    } else {
        escape_text(s.drop_last()) + escape_char(s.last())
    }
}

/// Escapes `&`, `<`, `>` and `"` for use in SVG text and attributes.
pub fn escape(s: &str) -> (out: String)
    ensures
        out@ == escape_text(s@),
{
    let cs = chars_of(s);
    let n = cs.len();
    let mut out = String::new();
    let mut i: usize = 0;
    while i < n
        invariant
            n == cs@.len(),
            cs@ == s@,
            i <= n,
            out@ == escape_text(s@.take(i as int)),
        decreases n - i,
    {
        let c = cs[i];
        let ghost before = out@;
        if c == '&' {
            push_str(&mut out, "&amp;");
        } else if c == '<' {
            push_str(&mut out, "&lt;");
        } else if c == '>' {
            push_str(&mut out, "&gt;");
        } else if c == '"' {
            push_str(&mut out, "&quot;");
        } else {
            push_char(&mut out, c);
            assert(out@ =~= before + seq![c]);
        }
        assert(s@.take(i + 1).drop_last() =~= s@.take(i as int));
        i = i + 1;
    }
    assert(s@.take(n as int) =~= s@);
    out
}

/// Escaped text never contains a raw `<`, `>` or `"`, so it cannot open or
/// close markup or end an attribute value.
pub proof fn lemma_escape_has_no_markup(s: Seq<char>)
    ensures
        forall|i: int| 0 <= i < escape_text(s).len() ==> {
            let c = #[trigger] escape_text(s)[i];
            c != '<' && c != '>' && c != '"'
        },
    decreases s.len(),
{
    reveal_strlit("&amp;");
    reveal_strlit("&lt;");
    reveal_strlit("&gt;");
    reveal_strlit("&quot;");
    if s.len() > 0 {
        lemma_escape_has_no_markup(s.drop_last());
        let a = escape_text(s.drop_last());
        let b = escape_char(s.last());
        assert forall|i: int| 0 <= i < escape_text(s).len() implies {
            let c = #[trigger] escape_text(s)[i];
            c != '<' && c != '>' && c != '"'
        } by {
            if i >= a.len() {
                assert(escape_text(s)[i] == b[i - a.len()]);
            } else {
                assert(escape_text(s)[i] == a[i]);
            }
        }
    }
}

/// Escaping a joined text escapes each part.
pub proof fn lemma_escape_concat(a: Seq<char>, b: Seq<char>)
    ensures
        escape_text(a + b) == escape_text(a) + escape_text(b),
    decreases b.len(),
{
    if b.len() == 0 {
        assert(a + b =~= a);
        assert(escape_text(a) + escape_text(b) =~= escape_text(a));
    } else {
        lemma_escape_concat(a, b.drop_last());
        assert((a + b).drop_last() =~= a + b.drop_last());
        assert((a + b).last() == b.last());
        assert(escape_text(a + b) =~= escape_text(a) + escape_text(b.drop_last()) + escape_char(b.last()));
    }
}

/// Reading an escaped text back: each entity becomes its character, any
/// other character stands for itself.
pub open spec fn unescape_text(t: Seq<char>) -> Seq<char>
    decreases t.len(),
{
    if t.len() == 0 {
        seq![]
    } else if t.len() >= 5 && t.take(5) == "&amp;"@ {
        seq!['&'] + unescape_text(t.skip(5))
    } else if t.len() >= 4 && t.take(4) == "&lt;"@ {
        seq!['<'] + unescape_text(t.skip(4))
    } else if t.len() >= 4 && t.take(4) == "&gt;"@ {
        seq!['>'] + unescape_text(t.skip(4))
    } else if t.len() >= 6 && t.take(6) == "&quot;"@ {
        seq!['"'] + unescape_text(t.skip(6))
    } else {
        seq![t[0]] + unescape_text(t.skip(1))
    }
}

proof fn lemma_unescape_step(c: char, x: Seq<char>)
    ensures
        unescape_text(escape_char(c) + x) == seq![c] + unescape_text(x),
{
    reveal_strlit("&amp;");
    reveal_strlit("&lt;");
    reveal_strlit("&gt;");
    reveal_strlit("&quot;");
    let t = escape_char(c) + x;
    if c == '&' {
        assert(t.take(5) =~= "&amp;"@);
        assert(t.skip(5) =~= x);
    } else if c == '<' {
        assert(t.len() < 5 || t.take(5)[1] != "&amp;"@[1]);
        assert(t.take(4) =~= "&lt;"@);
        assert(t.skip(4) =~= x);
    } else if c == '>' {
        assert(t.len() < 5 || t.take(5)[1] != "&amp;"@[1]);
        assert(t.take(4)[1] != "&lt;"@[1]);
        assert(t.take(4) =~= "&gt;"@);
        assert(t.skip(4) =~= x);
    } else if c == '"' {
        assert(t.take(5)[1] != "&amp;"@[1]);
        assert(t.take(4)[1] != "&lt;"@[1]);
        assert(t.take(4)[1] != "&gt;"@[1]);
        assert(t.take(6) =~= "&quot;"@);
        assert(t.skip(6) =~= x);
    } else {
        assert(t[0] == c);
        assert(t.len() < 5 || t.take(5)[0] != "&amp;"@[0]);
        assert(t.len() < 4 || t.take(4)[0] != "&lt;"@[0]);
        assert(t.len() < 4 || t.take(4)[0] != "&gt;"@[0]);
        assert(t.len() < 6 || t.take(6)[0] != "&quot;"@[0]);
        assert(t.skip(1) =~= x);
    }
}

/// Escaping loses nothing: reading the escaped text back gives the text.
pub proof fn lemma_unescape_escape(s: Seq<char>)
    ensures
        unescape_text(escape_text(s)) == s,
    decreases s.len(),
{
    if s.len() > 0 {
        let c = s[0];
        let rest = s.drop_first();
        assert(s =~= seq![c] + rest);
        lemma_escape_concat(seq![c], rest);
        assert(seq![c].drop_last() =~= Seq::<char>::empty());
        assert(escape_text(Seq::<char>::empty()) =~= Seq::<char>::empty());
        assert(seq![c].last() == c);
        assert(escape_text(seq![c]) == escape_text(seq![c].drop_last()) + escape_char(c));
        assert(escape_text(seq![c]) =~= escape_char(c));
        lemma_unescape_step(c, escape_text(rest));
        lemma_unescape_escape(rest);
        assert(seq![c] + rest =~= s);
    }
}

/// One of the four entities begins at position `i` of `t`.
pub open spec fn entity_at(t: Seq<char>, i: int) -> bool {
    ||| (i + 5 <= t.len() && t.subrange(i, i + 5) == "&amp;"@)
    ||| (i + 4 <= t.len() && t.subrange(i, i + 4) == "&lt;"@)
    ||| (i + 4 <= t.len() && t.subrange(i, i + 4) == "&gt;"@)
    ||| (i + 6 <= t.len() && t.subrange(i, i + 6) == "&quot;"@)
}

/// Every `&` in escaped text begins one of the four entities.
pub proof fn lemma_escape_ampersands(s: Seq<char>)
    ensures
        forall|i: int| 0 <= i < escape_text(s).len() && #[trigger] escape_text(s)[i] == '&' ==> entity_at(escape_text(s), i),
    decreases s.len(),
{
    reveal_strlit("&amp;");
    reveal_strlit("&lt;");
    reveal_strlit("&gt;");
    reveal_strlit("&quot;");
    if s.len() > 0 {
        lemma_escape_ampersands(s.drop_last());
        let a = escape_text(s.drop_last());
        let b = escape_char(s.last());
        let t = escape_text(s);
        assert(t == a + b);
        assert forall|i: int| 0 <= i < t.len() && #[trigger] t[i] == '&' implies entity_at(t, i) by {
            if i < a.len() {
                assert(a[i] == '&');
                assert(entity_at(a, i));
                if i + 5 <= a.len() && a.subrange(i, i + 5) == "&amp;"@ {
                    assert(t.subrange(i, i + 5) =~= a.subrange(i, i + 5));
                } else if i + 4 <= a.len() && a.subrange(i, i + 4) == "&lt;"@ {
                    assert(t.subrange(i, i + 4) =~= a.subrange(i, i + 4));
                } else if i + 4 <= a.len() && a.subrange(i, i + 4) == "&gt;"@ {
                    assert(t.subrange(i, i + 4) =~= a.subrange(i, i + 4));
                } else {
                    assert(t.subrange(i, i + 6) =~= a.subrange(i, i + 6));
                }
            } else {
                let k = i - a.len();
                assert(b[k] == '&');
                let c = s.last();
                if c == '&' {
                    assert(k == 0);
                    assert(t.subrange(i, i + 5) =~= b);
                } else if c == '<' {
                    assert(k == 0);
                    assert(t.subrange(i, i + 4) =~= b);
                } else if c == '>' {
                    assert(k == 0);
                    assert(t.subrange(i, i + 4) =~= b);
                } else if c == '"' {
                    assert(k == 0);
                    assert(t.subrange(i, i + 6) =~= b);
                } else {
                    assert(b[k] == c);
                }
            }
        }
    }
}

} // verus!
