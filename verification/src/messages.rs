use vstd::prelude::*;
use vstd::string::StringExecFns;

use crate::token::TokenText;

verus! {

/// The message reported when the wanted class is not matched.
pub open spec fn expect_message(wanted: Seq<char>, got: Seq<char>) -> Seq<char> {
    "expect token "@ + wanted + " but got "@ + got
}

/// The message reported when a class is wanted but the stream has no current
/// token.
pub open spec fn expect_eof_message(wanted: Seq<char>) -> Seq<char> {
    "expect token "@ + wanted + " but got end of file"@
}

/// The rendering of a sequence of tokens: their renderings, comma separated.
pub open spec fn joined_text<T: TokenText>(s: Seq<T>) -> Seq<char>
    decreases s.len(),
{
    if s.len() == 0 {
        Seq::empty()
    } else if s.len() == 1 {
        s[0].text_spec()
    } else {
        joined_text(s.drop_last()) + ", "@ + s.last().text_spec()
    }
}

/// The rendering of a wanted list: its members' renderings between brackets.
pub open spec fn list_text<T: TokenText>(s: Seq<T>) -> Seq<char> {
    "["@ + joined_text(s) + "]"@
}

/// The message reported when none of several wanted classes is matched.
pub open spec fn expect_multi_message<T: TokenText>(wanted: Seq<T>, got: Seq<char>) -> Seq<char> {
    "expect tokens "@ + list_text(wanted) + " but got "@ + got
}

/// The message reported when several classes are wanted but the stream has no
/// current token.
pub open spec fn expect_multi_eof_message<T: TokenText>(wanted: Seq<T>) -> Seq<char> {
    "expect tokens "@ + list_text(wanted) + " but got end of file"@
}

/// Builds the rendering of a wanted list.
pub(crate) fn render_list<T: TokenText>(wanted: &Vec<T>) -> (r: String)
    ensures
        r@ == list_text(wanted@),
{
    let mut m = String::from_str("[");
    let mut i: usize = 0;
    while i < wanted.len()
        invariant
            i <= wanted.len(),
            m@ == "["@ + joined_text(wanted@.take(i as int)),
        decreases wanted.len() - i,
    {
        if i > 0 {
            m.append(", ");
        }
        m.append(wanted[i].text().as_str());
        proof {
            let prefix = wanted@.take(i as int + 1);
            assert(prefix.drop_last() =~= wanted@.take(i as int));
            assert(prefix.last() == wanted@[i as int]);
            assert(m@ =~= "["@ + joined_text(prefix));
        }
        i += 1;
    }
    m.append("]");
    proof {
        assert(wanted@.take(wanted@.len() as int) =~= wanted@);
        assert(m@ =~= list_text(wanted@));
    }
    m
}

/// Builds the single-class mismatch message.
pub(crate) fn render_expect_message<T: TokenText>(wanted: &T, got: &T) -> (r: String)
    ensures
        r@ == expect_message(wanted.text_spec(), got.text_spec()),
{
    let mut m = String::from_str("expect token ");
    m.append(wanted.text().as_str());
    m.append(" but got ");
    m.append(got.text().as_str());
    proof {
        assert(m@ =~= expect_message(wanted.text_spec(), got.text_spec()));
    }
    m
}

/// Builds the single-class end-of-file message.
pub(crate) fn render_expect_eof_message<T: TokenText>(wanted: &T) -> (r: String)
    ensures
        r@ == expect_eof_message(wanted.text_spec()),
{
    let mut m = String::from_str("expect token ");
    m.append(wanted.text().as_str());
    m.append(" but got end of file");
    proof {
        assert(m@ =~= expect_eof_message(wanted.text_spec()));
    }
    m
}

/// Builds the multi-class mismatch message.
pub(crate) fn render_expect_multi_message<T: TokenText>(wanted: &Vec<T>, got: &T) -> (r: String)
    ensures
        r@ == expect_multi_message(wanted@, got.text_spec()),
{
    let mut m = String::from_str("expect tokens ");
    m.append(render_list(wanted).as_str());
    m.append(" but got ");
    m.append(got.text().as_str());
    proof {
        assert(m@ =~= expect_multi_message(wanted@, got.text_spec()));
    }
    m
}

/// Builds the multi-class end-of-file message.
pub(crate) fn render_expect_multi_eof_message<T: TokenText>(wanted: &Vec<T>) -> (r: String)
    ensures
        r@ == expect_multi_eof_message(wanted@),
{
    let mut m = String::from_str("expect tokens ");
    m.append(render_list(wanted).as_str());
    m.append(" but got end of file");
    proof {
        assert(m@ =~= expect_multi_eof_message(wanted@));
    }
    m
}

} // verus!
