//! The finished matrix.
//!
//! A spectrogram is its columns laid end to end, the first column first, and
//! the two numbers that say how to cut them apart again: the number of
//! columns and the number of values in each.

use crate::frames::views_of;
use vstd::prelude::*;
use vstd::slice::slice_subrange;

verus! {

/// Whether every column has `height` values.
pub open spec fn uniform(columns: Seq<Seq<u64>>, height: nat) -> bool {
    forall|index: int| 0 <= index < columns.len() ==> (#[trigger] columns[index]).len() == height
}

/// Column-major layout. Columns of one height, laid end to end, fill
/// `columns.len() * height` values, and the values from `index * height` on
/// are column `index`.
pub proof fn lemma_column_major(columns: Seq<Seq<u64>>, height: nat, index: int)
    requires
        uniform(columns, height),
        0 <= index < columns.len(),
    ensures
        columns.flatten().len() == columns.len() * height,
        index * height + height <= columns.flatten().len(),
        columns.flatten().subrange(index * height, index * height + height) == columns[index],
    decreases columns.len(),
{
    let rest = columns.drop_first();
    let count = columns.len() as int;
    let tall = height as int;
    assert(columns.flatten() == columns.first() + rest.flatten());
    assert(count * tall == (count - 1) * tall + tall) by (nonlinear_arith);
    assert(index * tall + tall <= count * tall) by (nonlinear_arith)
        requires
            0 <= index < count,
            tall >= 0,
    ;
    if rest.len() == 0 {
        assert(rest.flatten() =~= Seq::<u64>::empty());
        assert(columns.flatten() =~= columns.first());
        assert(index * tall == 0) by (nonlinear_arith)
            requires
                index == 0,
        ;
        assert(columns.flatten().subrange(0, tall) =~= columns[index]);
    } else if index == 0 {
        lemma_column_major(rest, height, 0);
        assert(index * tall == 0) by (nonlinear_arith)
            requires
                index == 0,
        ;
        assert(columns.flatten().subrange(0, tall) =~= columns[index]);
    } else {
        lemma_column_major(rest, height, index - 1);
        assert((index - 1) * tall + tall == index * tall) by (nonlinear_arith);
        assert(rest[index - 1] == columns[index]);
        assert(columns.flatten().subrange(index * tall, index * tall + tall)
            =~= rest.flatten().subrange((index - 1) * tall, (index - 1) * tall + tall));
    }
}

/// Lays `columns` end to end, in order.
pub fn concatenate(columns: &Vec<Vec<u64>>) -> (data: Vec<u64>)
    ensures
        data@ == views_of(columns@).flatten(),
{
    let mut data: Vec<u64> = Vec::new();
    let mut index: usize = 0;
    assert(views_of(columns@).take(0) =~= Seq::<Seq<u64>>::empty());
    while index < columns.len()
        invariant
            index <= columns@.len(),
            data@ == views_of(columns@).take(index as int).flatten(),
        decreases columns@.len() - index,
    {
        let ghost before = views_of(columns@).take(index as int);
        data.extend_from_slice(columns[index].as_slice());
        proof {
            before.lemma_flatten_push(columns@[index as int]@);
            assert(views_of(columns@).take(index + 1) =~= before.push(columns@[index as int]@));
        }
        index += 1;
    }
    assert(views_of(columns@).take(index as int) =~= views_of(columns@));
    data
}

/// A matrix of values, held column by column.
#[derive(Debug)]
pub struct Spectrogram {
    data: Vec<u64>,
    width: u32,
    height: u32,
}

impl Spectrogram {
    /// What every spectrogram made by `assemble` satisfies: it holds `width`
    /// columns of `height` values.
    pub closed spec fn well_formed(&self) -> bool {
        self.data@.len() == self.width * self.height
    }

    /// The values, column by column.
    pub closed spec fn values(&self) -> Seq<u64> {
        self.data@
    }

    /// The number of columns.
    pub closed spec fn spec_width(&self) -> nat {
        self.width as nat
    }

    /// The number of values in each column.
    pub closed spec fn spec_height(&self) -> nat {
        self.height as nat
    }

    /// A well-formed spectrogram holds `width * height` values.
    pub proof fn lemma_well_formed(&self)
        requires
            self.well_formed(),
        ensures
            self.values().len() == self.spec_width() * self.spec_height(),
    {
    }

    /// The spectrogram of `data`, taken as columns of `height` values. None
    /// where `height` is zero, where `data` does not end with a whole column,
    /// or where either side of the matrix exceeds `u32::MAX`.
    pub fn assemble(data: Vec<u64>, height: usize) -> (made: Option<Spectrogram>)
        ensures
            made is Some <==> height > 0 && data@.len() % (height as nat) == 0 && height
                <= u32::MAX && data@.len() / (height as nat) <= u32::MAX,
            made is Some ==> made->Some_0.well_formed() && made->Some_0.values() == data@
                && made->Some_0.spec_height() == height && made->Some_0.spec_width() == data@.len()
                / (height as nat),
    {
        if height == 0 || height > u32::MAX as usize {
            return None;
        }
        let len: usize = data.len();
        if len % height != 0 || len / height > u32::MAX as usize {
            return None;
        }
        proof {
            vstd::arithmetic::div_mod::lemma_fundamental_div_mod(len as int, height as int);
            assert((len / height) * height == height * (len / height)) by (nonlinear_arith);
        }
        Some(Spectrogram { data, width: (len / height) as u32, height: height as u32 })
    }

    /// The number of columns.
    pub fn width(&self) -> (width: u32)
        ensures
            width == self.spec_width(),
    {
        self.width
    }

    /// The number of values in each column.
    pub fn height(&self) -> (height: u32)
        ensures
            height == self.spec_height(),
    {
        self.height
    }

    /// The values, column by column.
    pub fn data(&self) -> (data: &Vec<u64>)
        ensures
            data@ == self.values(),
    {
        &self.data
    }

    /// The column with the given index.
    pub fn column(&self, index: u32) -> (column: &[u64])
        requires
            self.well_formed(),
            index < self.spec_width(),
        ensures
            column@ == self.values().subrange(
                index * self.spec_height(),
                index * self.spec_height() + self.spec_height(),
            ),
    {
        let len: usize = self.data.len();
        proof {
            assert(index * self.height + self.height <= self.width * self.height)
                by (nonlinear_arith)
                requires
                    0 <= index < self.width,
                    self.height >= 0,
            ;
            assert(index * self.height + self.height <= len);
        }
        let tall: usize = self.height as usize;
        let start: usize = index as usize * tall;
        slice_subrange(self.data.as_slice(), start, start + tall)
    }
}

} // verus!
