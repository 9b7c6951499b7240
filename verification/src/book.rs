//! The `Book` record, the caller-supplied payload of its mutable fields,
//! and the one user-visible error kind.

use vstd::prelude::*;

verus! {

/// The sole entity of the store. `id` is assigned by the store and is
/// immutable afterwards, as is `created_at`; the four text fields come
/// from the caller and may be overwritten by an update, which also sets
/// `updated_at`.
#[derive(Debug, Clone, PartialEq, Eq)]
pub struct Book {
    pub id: u64,
    pub title: String,
    pub author: String,
    pub summary: String,
    pub store_name: String,
    pub created_at: u64,
    pub updated_at: Option<u64>,
}

/// The mathematical image of a `Book`: the same fields with every text
/// field taken as its sequence of characters.
#[verifier::ext_equal]
pub ghost struct BookView {
    pub id: u64,
    pub title: Seq<char>,
    pub author: Seq<char>,
    pub summary: Seq<char>,
    pub store_name: Seq<char>,
    pub created_at: u64,
    pub updated_at: Option<u64>,
}

impl View for Book {
    type V = BookView;

    open spec fn view(&self) -> BookView {
        BookView {
            id: self.id,
            title: self.title@,
            author: self.author@,
            summary: self.summary@,
            store_name: self.store_name@,
            created_at: self.created_at,
            updated_at: self.updated_at,
        }
    }
}

/// The caller-supplied part of a record: the four mutable text fields.
#[derive(Debug, Clone, PartialEq, Eq)]
pub struct BookPayload {
    pub title: String,
    pub author: String,
    pub summary: String,
    pub store_name: String,
}

/// The mathematical image of a `BookPayload`.
#[verifier::ext_equal]
pub ghost struct PayloadView {
    pub title: Seq<char>,
    pub author: Seq<char>,
    pub summary: Seq<char>,
    pub store_name: Seq<char>,
}

impl View for BookPayload {
    type V = PayloadView;

    open spec fn view(&self) -> PayloadView {
        PayloadView {
            title: self.title@,
            author: self.author@,
            summary: self.summary@,
            store_name: self.store_name@,
        }
    }
}

/// The record the create operation stores: a fresh id, the payload's
/// text fields, the creation time, and no update time yet.
pub open spec fn spec_new_book(id: u64, p: PayloadView, now: u64) -> BookView {
    BookView {
        id,
        title: p.title,
        author: p.author,
        summary: p.summary,
        store_name: p.store_name,
        created_at: now,
        updated_at: None,
    }
}

/// The record the update operation stores: the payload's text fields
/// overwrite the old ones and the update time is stamped, while the id
/// and the creation time stay.
pub open spec fn spec_updated_book(b: BookView, p: PayloadView, now: u64) -> BookView {
    BookView {
        title: p.title,
        author: p.author,
        summary: p.summary,
        store_name: p.store_name,
        updated_at: Some(now),
        ..b
    }
}

/// The only error the store reports to a caller: the target id has no
/// current record. Every other fault is a storage-contract violation
/// with no recovery path, and is excluded by preconditions instead.
#[derive(Debug, Clone, PartialEq, Eq)]
pub enum Error {
    NotFound { msg: String },
}

} // verus!
