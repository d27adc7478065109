//! The chapter walker: the document tree, and the preprocessor that rewrites
//! every chapter's content in document order, stopping at the first failure.

use vstd::prelude::*;
use crate::rewrite::fold_error_message;
use crate::rewrite::fold_txt;
use crate::rewrite::fold_txt_spec;
use crate::rewrite::FoldError;

verus! {

/// A chapter: renderable markdown content, and the items nested under it.
pub struct Chapter {
    pub content: String,
    pub sub_items: Vec<BookItem>,
}

/// One node of the document tree.
pub enum BookItem {
    Chapter(Chapter),
    Separator,
    PartTitle(String),
}

/// The document tree: an ordered forest of items.
pub struct Book {
    pub sections: Vec<BookItem>,
}

/// The error text of the first chapter, in document order (an item before
/// its sub-items), whose transform fails; nothing if every chapter's
/// transform succeeds.
pub open spec fn first_error_in_item(it: BookItem) -> Option<Seq<char>>
    decreases it,
{
    match it {
        BookItem::Chapter(c) => match fold_txt_spec(c.content@) {
            Ok(_) => first_error_in_items(c.sub_items@),
            Err(m) => Some(m),
        },
        _ => None,
    }
}

/// The error text of the first failing chapter among `items` and everything
/// nested under them.
pub open spec fn first_error_in_items(items: Seq<BookItem>) -> Option<Seq<char>>
    decreases items,
{
    if items.len() == 0 {
        None
    } else {
        match first_error_in_item(items[0]) {
            Some(m) => Some(m),
            None => first_error_in_items(items.skip(1)),
        }
    }
}

/// How a rewritten item relates to the item it was made from: a chapter's
/// content is the successful transform of the old content and its sub-items
/// are rewritten in turn; every other item stands as it was.
pub open spec fn item_rewritten(b: BookItem, a: BookItem) -> bool
    decreases b,
{
    match b {
        BookItem::Chapter(cb) => a matches BookItem::Chapter(ca)
            && fold_txt_spec(cb.content@) == Ok::<Seq<char>, Seq<char>>(ca.content@)
            && items_rewritten(cb.sub_items@, ca.sub_items@),
        BookItem::Separator => a is Separator,
        BookItem::PartTitle(t) => a matches BookItem::PartTitle(u) && u@ == t@,
    }
}

/// Pointwise rewriting of a forest of items.
pub open spec fn items_rewritten(before: Seq<BookItem>, after: Seq<BookItem>) -> bool
    decreases before,
{
    &&& after.len() == before.len()
    &&& (before.len() > 0 ==> item_rewritten(before[0], after[0]) && items_rewritten(
        before.skip(1),
        after.skip(1),
    ))
}

/// Rewrite one item: transform a chapter's content, then its sub-items;
/// pass every other item through; stop at the first failure.
fn rewrite_item(it: BookItem) -> (r: Result<BookItem, FoldError>)
    ensures
        (match r {
            Ok(out) => first_error_in_item(it) is None && item_rewritten(it, out),
            Err(e) => first_error_in_item(it) matches Some(m) && e.message@ == fold_error_message(
                m,
            ),
        }),
    decreases it,
{
    match it {
        BookItem::Chapter(c) => match fold_txt(c.content.as_str()) {
            Ok(new_content) => match rewrite_items(c.sub_items) {
                Ok(new_subs) => Ok(
                    BookItem::Chapter(Chapter { content: new_content, sub_items: new_subs }),
                ),
                Err(e) => Err(e),
            },
            Err(e) => Err(e),
        },
        BookItem::Separator => Ok(BookItem::Separator),
        BookItem::PartTitle(t) => Ok(BookItem::PartTitle(t)),
    }
}

/// Rewrite a forest of items in document order, stopping at the first
/// failure.
fn rewrite_items(items: Vec<BookItem>) -> (r: Result<Vec<BookItem>, FoldError>)
    ensures
        (match r {
            Ok(out) => first_error_in_items(items@) is None && items_rewritten(items@, out@),
            Err(e) => first_error_in_items(items@) matches Some(m) && e.message@
                == fold_error_message(m),
        }),
    decreases items@,
{
    let ghost orig = items@;
    let mut rest = items;
    if rest.len() == 0 {
        return Ok(Vec::new());
    }
    let first = rest.remove(0);
    proof {
        assert(orig[0] == first);
        assert(rest@ =~= orig.skip(1));
        assert(decreases_to!(orig => orig[0]));
        assert(decreases_to!(orig => orig.subrange(1, orig.len() as int)));
        assert(orig.subrange(1, orig.len() as int) =~= orig.skip(1));
    }
    match rewrite_item(first) {
        Ok(new_first) => match rewrite_items(rest) {
            Ok(mut new_rest) => {
                let ghost tail = new_rest@;
                new_rest.insert(0, new_first);
                proof {
                    assert(new_rest@[0] == new_first);
                    assert(new_rest@.skip(1) =~= tail);
                    assert(first_error_in_items(orig) is None);
                    assert(items_rewritten(orig, new_rest@));
                }
                Ok(new_rest)
            },
            Err(e) => Err(e),
        },
        Err(e) => Err(e),
    }
}

/// The preprocessor: rewrites the fold markers of every chapter of a book.
pub struct FoldAQ;

impl FoldAQ {
    /// The preprocessor's name.
    pub fn name(&self) -> (r: &'static str)
        ensures
            r@ == "foldaq"@,
    {
        "foldaq"
    }

    /// Rewrite every chapter of the book, in document order; the first
    /// failing chapter's error is returned, and the tree only on success.
    pub fn run(&self, book: Book) -> (r: Result<Book, FoldError>)
        ensures
            (match r {
                Ok(out) => first_error_in_items(book.sections@) is None && items_rewritten(
                    book.sections@,
                    out.sections@,
                ),
                Err(e) => first_error_in_items(book.sections@) matches Some(m) && e.message@
                    == fold_error_message(m),
            }),
    {
        match rewrite_items(book.sections) {
            Ok(sections) => Ok(Book { sections }),
            Err(e) => Err(e),
        }
    }

    /// Whether the transform is meaningful for the given renderer: exactly
    /// the recognized renderer is supported.
    pub fn supports_renderer(&self, renderer: &str) -> (r: bool)
        ensures
            r == (renderer@ == "html"@),
    {
        let owned: String = renderer.to_owned();
        let html: String = "html".to_owned();
        owned == html
    }

    /// Transform one chapter's content, leaving the chapter as it stands.
    pub fn fold_txt(chapter: &Chapter) -> (r: Result<String, FoldError>)
        ensures
            (match r {
                Ok(s) => fold_txt_spec(chapter.content@) == Ok::<Seq<char>, Seq<char>>(s@),
                Err(e) => fold_txt_spec(chapter.content@) matches Err(m) && e.message@
                    == fold_error_message(m),
            }),
    {
        fold_txt(chapter.content.as_str())
    }
}

} // verus!
