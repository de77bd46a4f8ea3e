//! The slots that hold the connections: mio's `Slab`, behind a handful of
//! functions whose contracts are taken on trust.
//!
//! A slab has a fixed number of slots, each named by a token. A slot is either
//! filled with a connection or vacant, and the vacant ones stand in a list:
//! a connection goes into the slot at the head of the list, and a slot that
//! is emptied becomes the new head.

use vstd::prelude::*;
use mio::util::Slab;
use mio::Token;
use crate::poll::token_index;
use crate::request::Conn;
use crate::request::Request;

verus! {

/// A slab of connections. What is inside is mio's business.
#[verifier::external_body]
#[derive(Debug)]
pub struct Table {
    slab: Slab<Request>,
}

/// The filled slots of a slab: each connection under the number of its token.
pub uninterp spec fn table_entries(table: Table) -> Map<usize, Request>;

/// The vacant slots of a slab by the numbers of their tokens, in the order in
/// which they will be filled.
pub uninterp spec fn table_vacant(table: Table) -> Seq<usize>;

/// Makes a slab with `Slab::new_starting_at`: `capacity` slots, all vacant,
/// named from `first` upwards and to be filled in that order.
#[verifier::external_body]
pub(crate) fn create(first: Token, capacity: usize) -> (table: Table)
    requires
        token_index(first) + capacity <= usize::MAX,
        capacity < usize::MAX,
    ensures
        table_entries(table).dom() == Set::<usize>::empty(),
        table_vacant(table) == Seq::new(
            capacity as nat,
            |i: int| (token_index(first) + i) as usize,
        ),
{
    Table { slab: Slab::new_starting_at(first, capacity) }
}

/// Looks a slot up with `Slab::get`. For a token that names a slot of the
/// slab, the result is the connection in it, or nothing where it is vacant.
#[verifier::external_body]
pub(crate) fn get(table: &Table, token: Token) -> (found: Option<&Request>)
    requires
        table_entries(*table).dom().contains(token_index(token)) || table_vacant(*table).contains(
            token_index(token),
        ),
    ensures
        found is Some <==> table_entries(*table).dom().contains(token_index(token)),
        found matches Some(request) ==> *request == table_entries(*table)[token_index(token)],
{
    table.slab.get(token)
}

/// Borrows the connection of a filled slot with the slab's index operator
/// (`IndexMut`). Whatever the borrower leaves there is what the slot holds
/// afterwards; no other slot changes.
#[verifier::external_body]
pub(crate) fn get_mut(table: &mut Table, token: Token) -> (request: &mut Request)
    requires
        table_entries(*old(table)).dom().contains(token_index(token)),
    ensures
        *request == table_entries(*old(table))[token_index(token)],
        table_entries(*final(table)) == table_entries(*old(table)).insert(
            token_index(token),
            *final(request),
        ),
        table_vacant(*final(table)) == table_vacant(*old(table)),
{
    &mut table.slab[token]
}

/// Fills the slot at the head of the vacant list with `Slab::insert_with`,
/// which hands the slot's token to `Request::new`, and returns that token.
/// A slab without a vacant slot is left as it is, and nothing is returned.
#[verifier::external_body]
pub(crate) fn insert(table: &mut Table) -> (token: Option<Token>)
    ensures
        token is None <==> table_vacant(*old(table)).len() == 0,
        token is None ==> table_entries(*final(table)) == table_entries(*old(table)),
        token is None ==> table_vacant(*final(table)) == table_vacant(*old(table)),
        token matches Some(t) ==> token_index(t) == table_vacant(*old(table))[0],
        token matches Some(t) ==> table_vacant(*final(table)) == table_vacant(
            *old(table),
        ).drop_first(),
        token matches Some(t) ==> table_entries(*final(table)).dom() == table_entries(
            *old(table),
        ).dom().insert(token_index(t)),
        token matches Some(t) ==> table_entries(*final(table))[token_index(t)]@ == Conn::fresh(
            token_index(t),
        ),
        token matches Some(t) ==> table_entries(*final(table)).remove(token_index(t))
            == table_entries(*old(table)).remove(token_index(t)),
{
    table.slab.insert_with(|token| Request::new(token))
}

/// Empties a filled slot with `Slab::remove` and returns the connection that
/// was in it. The slot becomes the head of the vacant list.
#[verifier::external_body]
pub(crate) fn remove(table: &mut Table, token: Token) -> (request: Option<Request>)
    requires
        table_entries(*old(table)).dom().contains(token_index(token)),
    ensures
        request == Some(table_entries(*old(table))[token_index(token)]),
        table_entries(*final(table)) == table_entries(*old(table)).remove(token_index(token)),
        table_vacant(*final(table)) == seq![token_index(token)] + table_vacant(*old(table)),
{
    table.slab.remove(token)
}

} // verus!
