//! Texts in XML.
use crate::text::chars;
use vstd::prelude::*;
use vstd::string::*;

verus! {

/// How a character is written in XML.
pub open spec fn entity(c: char) -> Seq<char> {
    if c == '&' {
        "&amp;"@
    } else if c == '<' {
        "&lt;"@
    } else if c == '>' {
        "&gt;"@
    } else if c == '"' {
        "&quot;"@
    } else if c == '\'' {
        "&apos;"@
    } else {
        seq![c]
    }
}

/// How a text is written in XML.
pub open spec fn escaped(s: Seq<char>) -> Seq<char>
    decreases s.len(),
{
    if s.len() == 0 {
        Seq::empty()
    } else {
        escaped(s.drop_last()) + entity(s.last())
    }
}

/// How a text is written in XML.
pub fn xml_escape(s: &str) -> (r: String)
    ensures
        r@ == escaped(s@),
{
    let text = chars(s);
    let mut out = String::new();
    let mut i: usize = 0;
    assert(s@.take(0) =~= Seq::empty());
    assert(out@ =~= escaped(s@.take(0)));
    while i < text.len()
        invariant
            i <= text@.len(),
            text@ == s@,
            out@ == escaped(s@.take(i as int)),
        decreases text@.len() - i,
    {
        assert(s@.take(i + 1).drop_last() =~= s@.take(i as int));
        let c = text[i];
        if c == '&' {
            out.append("&amp;");
        } else if c == '<' {
            out.append("&lt;");
        } else if c == '>' {
            out.append("&gt;");
        } else if c == '"' {
            out.append("&quot;");
        } else if c == '\'' {
            out.append("&apos;");
        } else {
            let ghost before = out@;
            out.push(c);
            assert(out@ =~= before + seq![c]);
        }
        i += 1;
    }
    assert(s@.take(s@.len() as int) =~= s@);
    out
}

/// What is written in XML holds no character that could end a text or an attribute.
pub proof fn law_escaped_has_no_markup(s: Seq<char>, i: int)
    requires
        0 <= i < escaped(s).len(),
    ensures
        escaped(s)[i] != '<',
        escaped(s)[i] != '>',
        escaped(s)[i] != '"',
        escaped(s)[i] != '\'',
    decreases s.len(),
{
    let n = escaped(s.drop_last()).len();
    if i < n {
        law_escaped_has_no_markup(s.drop_last(), i);
    } else {
        reveal_strlit("&amp;");
        reveal_strlit("&lt;");
        reveal_strlit("&gt;");
        reveal_strlit("&quot;");
        reveal_strlit("&apos;");
        assert(escaped(s)[i] == entity(s.last())[i - n]);
    }
}

proof fn lemma_entity_starts(c: char)
    ensures
        entity(c).len() > 0,
        entity(c)[0] == '&' || (entity(c).len() == 1 && entity(c)[0] == c),
        c == '&' ==> entity(c).len() == 5,
{
    reveal_strlit("&amp;");
    reveal_strlit("&lt;");
    reveal_strlit("&gt;");
    reveal_strlit("&quot;");
    reveal_strlit("&apos;");
}

proof fn lemma_entities_differ(a: char, b: char)
    requires
        entity(a).is_prefix_of(entity(b)) || entity(b).is_prefix_of(entity(a)),
    ensures
        a == b,
{
    reveal_strlit("&amp;");
    reveal_strlit("&lt;");
    reveal_strlit("&gt;");
    reveal_strlit("&quot;");
    reveal_strlit("&apos;");
    let x = entity(a);
    let y = entity(b);
    let n = if x.len() < y.len() {
        x.len()
    } else {
        y.len()
    };
    assert forall|i: int| 0 <= i < n implies x[i] == y[i] by {
        if x.is_prefix_of(y) {
            assert(y.take(x.len() as int)[i] == y[i]);
        } else {
            assert(x.take(y.len() as int)[i] == x[i]);
        }
    }
    assert(x[0] == y[0]);
    if n > 2 {
        assert(x[1] == y[1]);
        assert(x[2] == y[2]);
    }
}

/// The text after the first character is written behind that character.
proof fn lemma_escaped_from_front(s: Seq<char>)
    requires
        s.len() > 0,
    ensures
        escaped(s) == entity(s[0]) + escaped(s.skip(1)),
    decreases s.len(),
{
    if s.len() == 1 {
        assert(s.drop_last() =~= Seq::empty());
        assert(s.skip(1) =~= Seq::empty());
        assert(escaped(s) =~= entity(s[0]) + escaped(s.skip(1)));
    } else {
        lemma_escaped_from_front(s.drop_last());
        assert(s.drop_last().skip(1) =~= s.skip(1).drop_last());
        assert(escaped(s) =~= entity(s[0]) + escaped(s.skip(1)));
    }
}

/// Different texts are written differently.
pub proof fn law_escaping_loses_nothing(a: Seq<char>, b: Seq<char>)
    requires
        escaped(a) == escaped(b),
    ensures
        a == b,
    decreases a.len(),
{
    if a.len() == 0 || b.len() == 0 {
        if a.len() > 0 {
            lemma_escaped_from_front(a);
            lemma_entity_starts(a[0]);
        }
        if b.len() > 0 {
            lemma_escaped_from_front(b);
            lemma_entity_starts(b[0]);
        }
        assert(a =~= b);
    } else {
        lemma_escaped_from_front(a);
        lemma_escaped_from_front(b);
        let x = entity(a[0]);
        let y = entity(b[0]);
        let s = escaped(a);
        assert(s.take(x.len() as int) =~= x);
        assert(s.take(y.len() as int) =~= y);
        if x.len() <= y.len() {
            assert(y.take(x.len() as int) =~= x);
        } else {
            assert(x.take(y.len() as int) =~= y);
        }
        lemma_entities_differ(a[0], b[0]);
        assert(escaped(a.skip(1)) =~= s.skip(x.len() as int));
        assert(escaped(b.skip(1)) =~= s.skip(x.len() as int));
        law_escaping_loses_nothing(a.skip(1), b.skip(1));
        assert(a =~= seq![a[0]] + a.skip(1));
        assert(b =~= seq![b[0]] + b.skip(1));
    }
}

/// A text is escaped character by character: the five characters of markup become their entities,
/// and every other stands for itself.
pub proof fn law_characters_are_escaped_one_by_one(a: Seq<char>, b: Seq<char>, c: char)
    ensures
        escaped(a + b) == escaped(a) + escaped(b),
        escaped(seq!['&']) == "&amp;"@,
        escaped(seq!['<']) == "&lt;"@,
        escaped(seq!['>']) == "&gt;"@,
        escaped(seq!['"']) == "&quot;"@,
        escaped(seq!['\'']) == "&apos;"@,
        c != '&' && c != '<' && c != '>' && c != '"' && c != '\'' ==> escaped(seq![c]) == seq![c],
    decreases b.len(),
{
    lemma_escaped_one('&');
    lemma_escaped_one('<');
    lemma_escaped_one('>');
    lemma_escaped_one('"');
    lemma_escaped_one('\'');
    lemma_escaped_one(c);
    let all = a + b;
    if b.len() == 0 {
        assert(all =~= a);
        assert(escaped(a) + escaped(b) =~= escaped(a));
    } else {
        let rest = b.drop_last();
        law_characters_are_escaped_one_by_one(a, rest, c);
        assert(all.drop_last() =~= a + rest);
        assert(all.last() == b.last());
        assert(escaped(a) + escaped(rest) + entity(b.last()) =~= escaped(a) + (escaped(rest)
            + entity(b.last())));
    }
}

proof fn lemma_escaped_one(c: char)
    ensures
        escaped(seq![c]) == entity(c),
{
    let one = seq![c];
    assert(one.drop_last() =~= Seq::empty());
    assert(escaped(one.drop_last()) =~= Seq::empty());
    assert(one.last() == c);
    assert(Seq::<char>::empty() + entity(c) =~= entity(c));
}

} // verus!
