//! Text shown for values, and lists of values joined by ", ".

use vstd::prelude::*;
use crate::names::{ApiSpecFileName, VersionedApiSpecFileName};
use crate::text::{chars_of, decimal, push_chars, push_decimal, string_from_chars};

verus! {

/// A value with a textual form for the user.
pub trait DisplayText {
    /// The text shown for this value.
    spec fn text_view(&self) -> Seq<char>;

    /// The text shown for this value.
    fn display_text(&self) -> (res: String)
        ensures
            res@ == self.text_view(),
    ;
}

impl DisplayText for usize {
    open spec fn text_view(&self) -> Seq<char> {
        decimal(*self as nat)
    }

    fn display_text(&self) -> (res: String) {
        let mut out: Vec<char> = Vec::new();
        push_decimal(&mut out, *self as u64);
        assert(out@ =~= decimal(*self as nat));
        string_from_chars(out.as_slice())
    }
}

impl DisplayText for ApiSpecFileName {
    open spec fn text_view(&self) -> Seq<char> {
        self.path_view()
    }

    fn display_text(&self) -> (res: String) {
        self.path_text()
    }
}

impl DisplayText for VersionedApiSpecFileName {
    open spec fn text_view(&self) -> Seq<char> {
        ApiSpecFileName::Versioned(*self).path_view()
    }

    fn display_text(&self) -> (res: String) {
        self.path_text()
    }
}

/// The texts joined with `sep` between neighbours.
pub open spec fn join_texts(items: Seq<Seq<char>>, sep: Seq<char>) -> Seq<char>
    decreases items.len(),
{
    if items.len() == 0 {
        seq![]
    } else if items.len() == 1 {
        items[0]
    } else {
        join_texts(items.drop_last(), sep) + sep + items.last()
    }
}

/// The texts of a sequence of values.
pub open spec fn texts_of<T: DisplayText>(items: Seq<T>) -> Seq<Seq<char>> {
    items.map_values(|x: T| x.text_view())
}

/// A list shown as its items separated by ", ".
#[derive(Debug, Clone)]
pub struct DisplayableVec<T>(pub Vec<T>);

impl<T: DisplayText> DisplayableVec<T> {
    /// The items' texts separated by ", " (empty for no items).
    pub fn to_string(&self) -> (res: String)
        ensures
            res@ == join_texts(texts_of(self.0@), ", "@),
    {
        proof {
            reveal_strlit(", ");
        }
        let sep = chars_of(", ");
        let mut out: Vec<char> = Vec::new();
        let mut i: usize = 0;
        while i < self.0.len()
            invariant
                i <= self.0@.len(),
                sep@ == ", "@,
                out@ == join_texts(texts_of(self.0@.subrange(0, i as int)), ", "@),
            decreases self.0@.len() - i,
        {
            if i > 0 {
                push_chars(&mut out, sep.as_slice());
            }
            let t = self.0[i].display_text();
            push_chars(&mut out, chars_of(t.as_str()).as_slice());
            proof {
                let prev = texts_of(self.0@.subrange(0, i as int));
                let next = texts_of(self.0@.subrange(0, i + 1));
                assert(next.drop_last() =~= prev);
                assert(next.last() == self.0@[i as int].text_view());
                if i == 0 {
                    assert(next.len() == 1);
                }
            }
            i = i + 1;
        }
        assert(self.0@.subrange(0, self.0@.len() as int) =~= self.0@);
        string_from_chars(out.as_slice())
    }
}

} // verus!
