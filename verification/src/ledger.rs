//! The boundary with the ledger store.
//!
//! The store keeps, under a text key, a sequence of 32-bit cells. A record goes
//! in with one byte to a cell. The store itself is outside this library: the
//! caller performs the write that [`LedgerWrite`] describes and hands back what
//! a read returned. [`stored_after`] and [`fetched`] say what is expected of the
//! store: a read returns what was last written under the key, so a later write
//! under a key replaces an earlier one.

use crate::error::StorageError;
use vstd::prelude::*;

verus! {

/// One write to the store: `cells` under `key`.
#[derive(Debug, PartialEq, Eq)]
pub struct LedgerWrite<'a> {
    pub key: &'a str,
    pub cells: Vec<u32>,
}

/// The mathematical value of a [`LedgerWrite`].
pub ghost struct LedgerWriteView {
    pub key: Seq<char>,
    pub cells: Seq<u32>,
}

impl<'a> View for LedgerWrite<'a> {
    type V = LedgerWriteView;

    open spec fn view(&self) -> LedgerWriteView {
        LedgerWriteView { key: self.key@, cells: self.cells@ }
    }
}

/// The cells that hold `bytes`, one byte to a cell.
pub open spec fn widened(bytes: Seq<u8>) -> Seq<u32> {
    Seq::new(bytes.len(), |i: int| bytes[i] as u32)
}

/// The bytes that `cells` hold, if every cell holds a byte.
pub open spec fn narrowed(cells: Seq<u32>) -> Option<Seq<u8>> {
    if forall|i: int| 0 <= i < cells.len() ==> cells[i] <= 0xff {
        Some(Seq::new(cells.len(), |i: int| cells[i] as u8))
    } else {
        None
    }
}

/// The store after a write: the key now leads to the cells written.
pub open spec fn stored_after(
    ledger: Map<Seq<char>, Seq<u32>>,
    write: LedgerWriteView,
) -> Map<Seq<char>, Seq<u32>> {
    ledger.insert(write.key, write.cells)
}

/// What a read of `key` returns.
pub open spec fn fetched(ledger: Map<Seq<char>, Seq<u32>>, key: Seq<char>) -> Result<
    Seq<u32>,
    StorageError,
> {
    if ledger.dom().contains(key) {
        Ok(ledger[key])
    } else {
        Err(StorageError::NotFound)
    }
}

/// Narrowing gives back the bytes that were widened.
pub proof fn narrowing_inverts_widening(bytes: Seq<u8>)
    ensures
        narrowed(widened(bytes)) == Some(bytes),
{
    assert(narrowed(widened(bytes))->0 =~= bytes);
}

/// Puts each byte in a cell of its own.
pub fn widen(bytes: &[u8]) -> (cells: Vec<u32>)
    ensures
        cells@ == widened(bytes@),
{
    let mut cells: Vec<u32> = Vec::new();
    let mut i: usize = 0;
    while i < bytes.len()
        invariant
            i <= bytes.len(),
            cells@ == widened(bytes@.take(i as int)),
        decreases bytes.len() - i,
    {
        cells.push(bytes[i] as u32);
        i = i + 1;
        assert(cells@ =~= widened(bytes@.take(i as int)));
    }
    assert(bytes@.take(i as int) =~= bytes@);
    cells
}

/// Takes the byte out of each cell; `None` if a cell holds more than a byte.
pub fn narrow(cells: &[u32]) -> (bytes: Option<Vec<u8>>)
    ensures
        match bytes {
            Some(b) => narrowed(cells@) == Some(b@),
            None => narrowed(cells@) is None,
        },
{
    let mut bytes: Vec<u8> = Vec::new();
    let mut i: usize = 0;
    while i < cells.len()
        invariant
            i <= cells.len(),
            narrowed(cells@.take(i as int)) == Some(bytes@),
        decreases cells.len() - i,
    {
        let cell = cells[i];
        if cell > 0xff {
            return None;
        }
        bytes.push(cell as u8);
        i = i + 1;
        assert(narrowed(cells@.take(i as int))->0 =~= bytes@);
    }
    assert(cells@.take(i as int) =~= cells@);
    Some(bytes)
}

} // verus!
