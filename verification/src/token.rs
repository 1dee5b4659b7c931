use vstd::prelude::*;

verus! {

/// Class equality between tokens: two tokens are class-equal when they belong
/// to the same logical class, whatever their payloads (two different numeric
/// literals are class-equal; a literal and a keyword are not). Every token
/// type handed to the tokenizer supplies this predicate, and every matching
/// operation — expectation, inspection, ignore filtering — goes through it.
pub trait TypeEq: Sized {
    /// What `type_eq` decides, as a mathematical predicate.
    spec fn class_eq(self, other: Self) -> bool;

    /// Returns whether `self` and `other` belong to the same token class.
    fn type_eq(&self, other: &Self) -> (r: bool)
        ensures
            r == self.class_eq(*other),
    ;
}

/// An owned copy of a token. This stands in for the `Clone` bound the token
/// type would otherwise carry: a derived `clone` promises nothing in a
/// contract, while `duplicate` is known to return the very same value.
pub trait TokenCopy: Sized {
    /// Returns a copy equal to the original.
    fn duplicate(&self) -> (r: Self)
        ensures
            r == *self,
    ;
}

/// A printable rendering of a token, used in error messages. This stands in
/// for the `Debug` bound the token type would otherwise carry: a derived
/// `Debug` cannot be spoken of in a contract, while `text` is pinned to the
/// token's own `text_spec`.
pub trait TokenText: Sized {
    /// The rendering `text` returns.
    spec fn text_spec(self) -> Seq<char>;

    /// Renders the token for an error message.
    fn text(&self) -> (r: String)
        ensures
            r@ == self.text_spec(),
    ;
}

/// A ready-made token representation for callers whose own token type cannot
/// carry the tokenizer's traits: the token's class as a plain identifier,
/// compared payload-blind, and the rendering its error messages use.
#[derive(Debug)]
pub struct ClassToken {
    /// The class identifier; class equality compares only this.
    pub class: u64,
    /// The rendering used in error messages.
    pub display: String,
}

impl TypeEq for ClassToken {
    open spec fn class_eq(self, other: Self) -> bool {
        self.class == other.class
    }

    fn type_eq(&self, other: &Self) -> (r: bool)
        ensures
            r == self.class_eq(*other),
    {
        self.class == other.class
    }
}

impl TokenCopy for ClassToken {
    fn duplicate(&self) -> (r: Self)
        ensures
            r == *self,
    {
        ClassToken { class: self.class, display: self.display.clone() }
    }
}

impl TokenText for ClassToken {
    open spec fn text_spec(self) -> Seq<char> {
        self.display@
    }

    fn text(&self) -> (r: String)
        ensures
            r@ == self.text_spec(),
    {
        self.display.clone()
    }
}

/// A token together with the byte span it occupies in the source.
pub struct PositionedToken<T> {
    pub token: T,
    /// Byte offset of the token in the source.
    pub index: usize,
    /// Byte length of the token in the source.
    pub len: usize,
}

/// Whether `t` belongs to the class of one of the exemplars in `ignore`.
pub open spec fn is_ignorable<T: TypeEq>(ignore: Seq<T>, t: T) -> bool {
    exists|i: int| 0 <= i < ignore.len() && ignore[i].class_eq(t)
}

/// Whether `got` is class-equal to some element of `wanted`.
pub open spec fn matches_any<T: TypeEq>(got: T, wanted: Seq<T>) -> bool {
    exists|i: int| 0 <= i < wanted.len() && got.class_eq(wanted[i])
}

/// The subsequence of `s` whose tokens do not belong to an ignored class, in
/// source order: exactly what a full traversal of the tokenizer surfaces.
pub open spec fn kept<T: TypeEq>(ignore: Seq<T>, s: Seq<PositionedToken<T>>) -> Seq<
    PositionedToken<T>,
>
    decreases s.len(),
{
    if s.len() == 0 {
        Seq::empty()
    } else if is_ignorable(ignore, s[0].token) {
        kept(ignore, s.skip(1))
    } else {
        seq![s[0]] + kept(ignore, s.skip(1))
    }
}

/// No token that the ignore filter keeps is itself ignorable.
pub proof fn lemma_kept_not_ignorable<T: TypeEq>(ignore: Seq<T>, s: Seq<PositionedToken<T>>)
    ensures
        forall|i: int|
            0 <= i < kept(ignore, s).len() ==> !is_ignorable(
                ignore,
                #[trigger] kept(ignore, s)[i].token,
            ),
    decreases s.len(),
{
    if s.len() == 0 {
    } else {
        lemma_kept_not_ignorable(ignore, s.skip(1));
        if !is_ignorable(ignore, s[0].token) {
            assert forall|i: int| 0 <= i < kept(ignore, s).len() implies !is_ignorable(
                ignore,
                #[trigger] kept(ignore, s)[i].token,
            ) by {
                if i == 0 {
                    assert(kept(ignore, s)[0] == s[0]);
                } else {
                    assert(kept(ignore, s)[i] == kept(ignore, s.skip(1))[i - 1]);
                }
            }
        } else {
            assert(kept(ignore, s) == kept(ignore, s.skip(1)));
        }
    }
}

} // verus!
