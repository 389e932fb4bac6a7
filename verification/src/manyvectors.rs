//! Dense storage for a fixed number of equally wide vectors.
//!
//! All cells live in one row-major buffer; the cell at row `i`, column `j`
//! is found at `i * attributes + j`.

use vstd::prelude::*;

verus! {

/// A matrix used as a vector of vectors: `vectors` rows of `attributes`
/// cells each, stored back to back in `data`.
#[derive(Debug)]
pub struct ManyVectors<T> where T: Copy + Sized {
    /// Number of vectors this matrix has.
    pub vectors: usize,
    /// Number of attributes this matrix has per vector.
    pub attributes: usize,
    /// All cells in one row-major buffer.
    pub data: Vec<T>,
}

/// Forward cursor over the rows of a [`ManyVectors`].
pub struct IterManyVectors<'a, T: 'a> where T: Copy + Sized {
    /// The matrix we iterate over.
    pub matrix: &'a ManyVectors<T>,
    /// Index of the row that `next` hands out next.
    pub index: usize,
}

impl<T> View for ManyVectors<T> where T: Copy + Sized {
    type V = Seq<Seq<T>>;

    /// The rows, in order, each as the sequence of its cells.
    open spec fn view(&self) -> Seq<Seq<T>> {
        rows(self.data@, self.vectors as int, self.attributes as int)
    }
}

/// A row-major buffer cut into `vectors` rows of `attributes` cells each.
pub open spec fn rows<T>(data: Seq<T>, vectors: int, attributes: int) -> Seq<Seq<T>> {
    Seq::new(
        vectors as nat,
        |i: int| data.subrange(i * attributes, i * attributes + attributes),
    )
}

/// The first cell of a row lies inside the buffer, and so does the whole row.
pub proof fn lemma_row_in_bounds(vectors: int, attributes: int, i: int)
    requires
        0 <= i < vectors,
        0 <= attributes,
    ensures
        0 <= i * attributes,
        i * attributes + attributes <= vectors * attributes,
{
    assert(0 <= i * attributes) by (nonlinear_arith)
        requires
            0 <= i,
            0 <= attributes,
    ;
    assert(i * attributes + attributes <= vectors * attributes) by (nonlinear_arith)
        requires
            i + 1 <= vectors,
            0 <= attributes,
    ;
}

/// `spliced` is `data` with the cells from `start` on replaced by `cells`.
pub open spec fn is_spliced<T>(data: Seq<T>, start: int, cells: Seq<T>, spliced: Seq<T>) -> bool {
    &&& spliced.len() == data.len()
    &&& forall|k: int|
        0 <= k < data.len() ==> #[trigger] spliced[k] == if start <= k < start + cells.len() {
            cells[k - start]
        } else {
            data[k]
        }
}

/// Replacing the cells of row `i` in the buffer replaces row `i` among the
/// rows and leaves every other row as it was.
pub proof fn lemma_splice_row<T>(
    data: Seq<T>,
    vectors: int,
    attributes: int,
    i: int,
    cells: Seq<T>,
    spliced: Seq<T>,
)
    requires
        0 <= i < vectors,
        0 <= attributes,
        data.len() == vectors * attributes,
        cells.len() == attributes,
        is_spliced(data, i * attributes, cells, spliced),
    ensures
        rows(spliced, vectors, attributes) == rows(data, vectors, attributes).update(i, cells),
{
    lemma_row_in_bounds(vectors, attributes, i);
    assert forall|k: int| 0 <= k < vectors implies #[trigger] rows(spliced, vectors, attributes)[k]
        == rows(data, vectors, attributes).update(i, cells)[k] by {
        lemma_row_in_bounds(vectors, attributes, k);
        if k != i {
            assert(k * attributes + attributes <= i * attributes || i * attributes + attributes
                <= k * attributes) by (nonlinear_arith)
                requires
                    k != i,
                    0 <= attributes,
            ;
        }
        assert(rows(spliced, vectors, attributes)[k] =~= rows(data, vectors, attributes).update(
            i,
            cells,
        )[k]);
    }
    assert(rows(spliced, vectors, attributes) =~= rows(data, vectors, attributes).update(i, cells));
}

impl<T> ManyVectors<T> where T: Copy + Sized {
    /// The buffer holds exactly `vectors * attributes` cells.
    pub open spec fn wf(&self) -> bool {
        self.data@.len() == self.vectors * self.attributes
    }

    /// Position in the buffer of the cell at row `index_vector`, column
    /// `index_attribute`.
    pub open spec fn spec_offset(&self, index_vector: int, index_attribute: int) -> int {
        index_vector * self.attributes + index_attribute
    }

    /// In a well-formed matrix every row lies inside the buffer, whose length
    /// is a `usize`.
    pub proof fn lemma_row_fits(&self, index_vector: int)
        requires
            self.wf(),
            0 <= index_vector < self.vectors,
        ensures
            0 <= self.spec_offset(index_vector, 0),
            self.spec_offset(index_vector, 0) + self.attributes <= self.data@.len(),
            self.data@.len() <= usize::MAX,
            self@[index_vector].len() == self.attributes,
    {
        lemma_row_in_bounds(self.vectors as int, self.attributes as int, index_vector);
        assert(self.data.len() <= usize::MAX);
    }

    /// Creates a matrix of `vectors` rows and `attributes` columns with every
    /// cell set to `default`.
    pub fn with_dimension(vectors: usize, attributes: usize, default: T) -> (m: ManyVectors<T>)
        requires
            vectors * attributes <= usize::MAX,
        ensures
            m.vectors == vectors,
            m.attributes == attributes,
            m.wf(),
            m.data@ == Seq::new((vectors * attributes) as nat, |k: int| default),
            m@.len() == vectors,
            forall|i: int, j: int|
                0 <= i < vectors && 0 <= j < attributes ==> #[trigger] m@[i][j] == default,
    {
        assert(0 <= vectors * attributes) by (nonlinear_arith);
        let cells: usize = vectors * attributes;
        let mut data: Vec<T> = Vec::new();
        let mut filled: usize = 0;
        while filled < cells
            invariant
                filled <= cells,
                data@ == Seq::new(filled as nat, |k: int| default),
            decreases cells - filled,
        {
            data.push(default);
            filled = filled + 1;
        }
        let m = ManyVectors::<T> { vectors, attributes, data };
        assert forall|i: int, j: int| 0 <= i < vectors && 0 <= j < attributes implies #[trigger] m@[i][j] == default by {
            lemma_row_in_bounds(vectors as int, attributes as int, i);
        }
        m
    }

    /// Wraps an existing row-major buffer as a matrix of the given dimensions.
    ///
    /// Nothing is checked or copied: the matrix is well formed exactly when
    /// the buffer holds `vectors * attributes` cells.
    pub fn from_flat(vector: Vec<T>, vectors: usize, attributes: usize) -> (m: ManyVectors<T>)
        ensures
            m.vectors == vectors,
            m.attributes == attributes,
            m.data == vector,
            m.wf() <==> vector@.len() == vectors * attributes,
            m.wf() ==> forall|i: int, j: int|
                0 <= i < vectors && 0 <= j < attributes ==> #[trigger] m@[i][j] == vector@[
                    i * attributes + j],
    {
        let m = ManyVectors::<T> { vectors, attributes, data: vector };
        assert forall|i: int, j: int|
            m.wf() && 0 <= i < vectors && 0 <= j < attributes implies #[trigger] m@[i][j]
            == vector@[i * attributes + j] by {
            lemma_row_in_bounds(vectors as int, attributes as int, i);
        }
        m
    }

    /// The row `index_vector` as a slice of `attributes` cells.
    #[inline]
    pub fn get_vector(&self, index_vector: usize) -> (row: &[T])
        requires
            self.wf(),
            index_vector < self.vectors,
        ensures
            row@ == self@[index_vector as int],
            row@.len() == self.attributes,
    {
        proof {
            self.lemma_row_fits(index_vector as int);
        }
        let start_index = self.offset(index_vector, 0);
        &self.data[start_index..start_index + self.attributes]
    }

    /// The row `index_vector` as a mutable slice; what the caller leaves in
    /// the slice becomes the row, and the cells before and after it stay.
    #[inline]
    pub fn get_vector_mut(&mut self, index_vector: usize) -> (row: &mut [T])
        requires
            old(self).wf(),
            index_vector < old(self).vectors,
        ensures
            row@ == old(self)@[index_vector as int],
            final(self).vectors == old(self).vectors,
            final(self).attributes == old(self).attributes,
            final(self).data@ == old(self).data@.subrange(
                0,
                old(self).spec_offset(index_vector as int, 0),
            ) + final(row)@ + old(self).data@.subrange(
                old(self).spec_offset(index_vector as int, 0) + old(self).attributes,
                old(self).data@.len() as int,
            ),
            final(row)@.len() == old(self).attributes ==> final(self).wf() && final(self)@ == old(
                self,
            )@.update(index_vector as int, final(row)@),
    {
        proof {
            self.lemma_row_fits(index_vector as int);
        }
        let start_index = self.offset(index_vector, 0);
        let attributes = self.attributes;
        let (_, tail) = self.data.as_mut_slice().split_at_mut(start_index);
        let (row, _) = tail.split_at_mut(attributes);
        proof {
            let data = old(self).data@;
            assert forall|spliced: Seq<T>, cells: Seq<T>|
                cells.len() == attributes && is_spliced(
                    data,
                    start_index as int,
                    cells,
                    spliced,
                ) implies #[trigger] rows(spliced, old(self).vectors as int, attributes as int)
                == #[trigger] old(self)@.update(index_vector as int, cells) by {
                lemma_splice_row(
                    data,
                    old(self).vectors as int,
                    attributes as int,
                    index_vector as int,
                    cells,
                    spliced,
                );
            }
        }
        row
    }

    /// Copies `vector` into row `index_vector`; every other row keeps its
    /// cells.
    #[inline]
    pub fn set_vector(&mut self, index_vector: usize, vector: &[T])
        requires
            old(self).wf(),
            index_vector < old(self).vectors,
            vector@.len() == old(self).attributes,
        ensures
            final(self).wf(),
            final(self).vectors == old(self).vectors,
            final(self).attributes == old(self).attributes,
            is_spliced(
                old(self).data@,
                old(self).spec_offset(index_vector as int, 0),
                vector@,
                final(self).data@,
            ),
            final(self)@ == old(self)@.update(index_vector as int, vector@),
            final(self)@[index_vector as int] == vector@,
            forall|k: int|
                0 <= k < old(self).vectors && k != index_vector ==> #[trigger] final(self)@[k]
                    == old(self)@[k],
    {
        proof {
            self.lemma_row_fits(index_vector as int);
        }
        let start_index = self.offset(index_vector, 0);
        let attributes = self.attributes;
        let mut i: usize = 0;
        while i < attributes
            invariant
                i <= attributes,
                attributes == self.attributes,
                attributes == vector@.len(),
                self.vectors == old(self).vectors,
                self.attributes == old(self).attributes,
                self.data@.len() == old(self).data@.len(),
                start_index + attributes <= self.data@.len() <= usize::MAX,
                forall|k: int|
                    0 <= k < self.data@.len() ==> #[trigger] self.data@[k] == if start_index <= k
                        < start_index + i {
                        vector@[k - start_index]
                    } else {
                        old(self).data@[k]
                    },
            decreases attributes - i,
        {
            self.data[start_index + i] = vector[i];
            i = i + 1;
        }
        proof {
            lemma_splice_row(
                old(self).data@,
                self.vectors as int,
                self.attributes as int,
                index_vector as int,
                vector@,
                self.data@,
            );
        }
    }

    /// Position in the buffer of the cell at row `index_vector`, column
    /// `index_attribute`: the one address translation every accessor uses.
    #[inline]
    pub fn offset(&self, index_vector: usize, index_attribute: usize) -> (at: usize)
        requires
            index_vector * self.attributes + index_attribute <= usize::MAX,
        ensures
            at == self.spec_offset(index_vector as int, index_attribute as int),
    {
        assert(0 <= index_vector * self.attributes) by (nonlinear_arith);
        index_vector * self.attributes + index_attribute
    }

    /// Overwrites the cell at row `index_vector`, column `index_attribute`.
    #[inline]
    pub fn set(&mut self, index_vector: usize, index_attribute: usize, value: T)
        requires
            old(self).wf(),
            index_vector < old(self).vectors,
            index_attribute < old(self).attributes,
        ensures
            final(self).wf(),
            final(self).vectors == old(self).vectors,
            final(self).attributes == old(self).attributes,
            final(self).data@ == old(self).data@.update(
                old(self).spec_offset(index_vector as int, index_attribute as int),
                value,
            ),
            final(self)@ == old(self)@.update(
                index_vector as int,
                old(self)@[index_vector as int].update(index_attribute as int, value),
            ),
    {
        proof {
            self.lemma_row_fits(index_vector as int);
        }
        let index = self.offset(index_vector, index_attribute);
        self.data[index] = value;
        proof {
            let a = self.attributes as int;
            let i = index_vector as int;
            assert forall|k: int| 0 <= k < self.vectors implies #[trigger] self@[k] == old(
                self,
            )@.update(i, old(self)@[i].update(index_attribute as int, value))[k] by {
                lemma_row_in_bounds(self.vectors as int, a, k);
                if k != i {
                    assert(index < k * a || index >= k * a + a) by (nonlinear_arith)
                        requires
                            index == i * a + index_attribute,
                            0 <= index_attribute < a,
                            k != i,
                    ;
                }
            }
        }
    }

    /// The cell at row `index_vector`, column `index_attribute`.
    #[inline]
    pub fn get(&self, index_vector: usize, index_attribute: usize) -> (value: T)
        requires
            self.wf(),
            index_vector < self.vectors,
            index_attribute < self.attributes,
        ensures
            value == self@[index_vector as int][index_attribute as int],
            value == self.data@[self.spec_offset(index_vector as int, index_attribute as int)],
    {
        proof {
            self.lemma_row_fits(index_vector as int);
        }
        let index = self.offset(index_vector, index_attribute);
        self.data[index]
    }

    /// A cursor placed before the first row.
    pub fn into_iter(&self) -> (iter: IterManyVectors<'_, T>)
        ensures
            iter.matrix == self,
            iter.index == 0,
            iter.remaining() == self@,
    {
        let iter = IterManyVectors { matrix: self, index: 0 };
        assert(iter.remaining() =~= self@);
        iter
    }
}

impl<'a, T> IterManyVectors<'a, T> where T: Copy + Sized {
    /// The rows that are still to come, in the order in which `next` hands
    /// them out.
    pub open spec fn remaining(&self) -> Seq<Seq<T>> {
        if self.index <= self.matrix.vectors {
            self.matrix@.subrange(self.index as int, self.matrix.vectors as int)
        } else {
            Seq::empty()
        }
    }

    /// One step of the cursor: the row handed out, if any, and the cursor
    /// afterwards.
    pub open spec fn spec_next(self) -> (Option<Seq<T>>, Self) {
        if self.index >= self.matrix.vectors {
            (None, self)
        } else {
            (
                Some(self.matrix@[self.index as int]),
                IterManyVectors { matrix: self.matrix, index: (self.index + 1) as usize },
            )
        }
    }

    /// Every row handed out from this cursor on, until `next` answers `None`.
    pub open spec fn spec_collect(self) -> Seq<Seq<T>>
        decreases self.matrix.vectors - self.index,
    {
        match self.spec_next().0 {
            None => Seq::empty(),
            Some(row) => seq![row] + self.spec_next().1.spec_collect(),
        }
    }

    /// Hands out the row under the cursor and moves one row on, or answers
    /// `None` once every row has been handed out.
    pub fn next(&mut self) -> (row: Option<&'a [T]>)
        requires
            old(self).index < old(self).matrix.vectors ==> old(self).matrix.wf(),
        ensures
            *final(self) == old(self).spec_next().1,
            match row {
                Some(cells) => old(self).spec_next().0 == Some(cells@),
                None => old(self).spec_next().0 is None,
            },
            row is Some <==> old(self).index < old(self).matrix.vectors,
            row is Some ==> final(self).index == old(self).index + 1,
            row is None ==> final(self).index == old(self).index,
            match row {
                Some(cells) => old(self).remaining().len() > 0 && cells@ == old(
                    self,
                ).remaining().first() && final(self).remaining() == old(
                    self,
                ).remaining().drop_first(),
                None => old(self).remaining().len() == 0 && final(self).remaining().len() == 0,
            },
    {
        if self.index >= self.matrix.vectors {
            None
        } else {
            self.index += 1;
            let cells = self.matrix.get_vector(self.index - 1);
            assert(self.remaining() =~= old(self).remaining().drop_first());
            Some(cells)
        }
    }

    /// From any position, the cursor hands out exactly the rows from that
    /// position to the last, in ascending order.
    pub proof fn lemma_collect_is_remaining(self)
        ensures
            self.spec_collect() == self.remaining(),
        decreases self.matrix.vectors - self.index,
    {
        if self.index < self.matrix.vectors {
            let after = self.spec_next().1;
            after.lemma_collect_is_remaining();
            assert(self.spec_collect() =~= self.remaining());
        } else {
            assert(self.spec_collect() =~= self.remaining());
        }
    }
}

/// Writing a row and reading it back yields exactly the values written, and
/// every other row reads as it did before. `after` is `before` with the
/// cells of row `index_vector` replaced by `vector`, as `set_vector` leaves
/// it.
pub proof fn lemma_set_vector_round_trip<T: Copy>(
    before: ManyVectors<T>,
    after: ManyVectors<T>,
    index_vector: int,
    vector: Seq<T>,
)
    requires
        before.wf(),
        0 <= index_vector < before.vectors,
        vector.len() == before.attributes,
        after.vectors == before.vectors,
        after.attributes == before.attributes,
        is_spliced(before.data@, before.spec_offset(index_vector, 0), vector, after.data@),
    ensures
        after.wf(),
        after@[index_vector] == vector,
        forall|k: int|
            0 <= k < before.vectors && k != index_vector ==> #[trigger] after@[k] == before@[k],
{
    lemma_splice_row(
        before.data@,
        before.vectors as int,
        before.attributes as int,
        index_vector,
        vector,
        after.data@,
    );
}

/// In a well-formed matrix the cell at row `i`, column `j` of the view is
/// the cell of the buffer at `i * attributes + j`.
pub proof fn lemma_view_follows_offset<T: Copy>(matrix: ManyVectors<T>, i: int, j: int)
    requires
        matrix.wf(),
        0 <= i < matrix.vectors,
        0 <= j < matrix.attributes,
    ensures
        0 <= matrix.spec_offset(i, j) < matrix.data@.len(),
        matrix@[i][j] == matrix.data@[matrix.spec_offset(i, j)],
{
    lemma_row_in_bounds(matrix.vectors as int, matrix.attributes as int, i);
}

/// Iterating a matrix from the start visits exactly `vectors` rows, in
/// ascending index order, and the `i`-th row visited is row `i`.
pub proof fn lemma_iteration_visits_every_row<T: Copy>(matrix: &ManyVectors<T>)
    ensures
        (IterManyVectors { matrix, index: 0 }).spec_collect() == matrix@,
        (IterManyVectors { matrix, index: 0 }).spec_collect().len() == matrix.vectors,
        forall|i: int|
            0 <= i < matrix.vectors ==> #[trigger] (IterManyVectors {
                matrix,
                index: 0,
            }).spec_collect()[i] == matrix@[i],
{
    let start = IterManyVectors { matrix, index: 0 };
    start.lemma_collect_is_remaining();
    assert(start.remaining() =~= matrix@);
}

} // verus!
