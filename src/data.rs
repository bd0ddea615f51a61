//! The data-availability matrix of a block: cells, columns and rows of
//! content-addressed proof fragments, and the column units that publish them.
use crate::cbor::{
    cbor_bytes, cbor_links, cid_for, decode_byte_string, lemma_cid_well_formed, blake3_digest, well_formed_link, unit_well_formed, encode_unit, link_views, Unit, MAX_UNIT_SIZE,
};
use vstd::prelude::*;

verus! {

/// Identifier bytes of the cell that holds proof bytes `p`.
pub open spec fn cell_cid(p: Seq<u8>) -> Seq<u8> {
    cid_for(cbor_bytes(p))
}

/// Proof bytes that fit in one unit once encoded.
pub open spec fn encodable(p: Seq<u8>) -> bool {
    cbor_bytes(p).len() <= MAX_UNIT_SIZE
}

/// Proof bytes of one column, row 0 first.
pub open spec fn column_view(proofs: Seq<Vec<u8>>) -> Seq<Seq<u8>> {
    proofs.map_values(|v: Vec<u8>| v@)
}

/// Proof bytes of a whole block, column 0 first, each column row 0 first.
pub open spec fn grid_view(proofs: Seq<Vec<Vec<u8>>>) -> Seq<Seq<Seq<u8>>> {
    proofs.map_values(|c: Vec<Vec<u8>>| column_view(c@))
}

/// A grid with `col_count` columns of `row_count` proofs each.
pub open spec fn grid_shaped(proofs: Seq<Vec<Vec<u8>>>, row_count: nat, col_count: nat) -> bool {
    &&& proofs.len() == col_count
    &&& forall|c: int| 0 <= c < proofs.len() ==> (#[trigger] proofs[c])@.len() == row_count
}

/// Every proof of the grid fits in one unit.
pub open spec fn grid_encodable(proofs: Seq<Vec<Vec<u8>>>) -> bool {
    forall|c: int, r: int|
        0 <= c < proofs.len() && 0 <= r < proofs[c]@.len() ==> encodable(#[trigger] proofs[c]@[r]@)
}

/// Why a matrix, a column or a cell could not be built.
#[derive(Debug, Clone, Copy, PartialEq, Eq, Structural)]
pub enum ConstructionError {
    /// The proof of some coordinate was not supplied.
    ProofUnavailable,
    /// A cell could not be encoded.
    Encoding,
}

/// One encoded, content-addressed proof fragment.
pub struct BaseCell {
    cid: Vec<u8>,
    data: Vec<u8>,
    payload: Ghost<Seq<u8>>,
}

impl View for BaseCell {
    /// The proof bytes that the cell holds.
    type V = Seq<u8>;

    closed spec fn view(&self) -> Seq<u8> {
        self.payload@
    }
}

impl BaseCell {
    #[verifier::type_invariant]
    spec fn inv(self) -> bool {
        &&& self.data@ == cbor_bytes(self.payload@)
        &&& self.cid@ == cid_for(self.data@)
        &&& blake3_digest(self.data@).len() == 32
    }

    /// The cell's content identifier, as bytes.
    pub fn cid(&self) -> (r: &Vec<u8>)
        ensures
            r@ == cell_cid(self@),
            well_formed_link(r@),
    {
        proof {
            use_type_invariant(self);
            lemma_cid_well_formed(self.data@);
        }
        &self.cid
    }

    /// The cell's encoding, as stored.
    pub fn data(&self) -> (r: &Vec<u8>)
        ensures
            r@ == cbor_bytes(self@),
    {
        proof {
            use_type_invariant(self);
        }
        &self.data
    }

    /// The proof bytes, decoded back from the cell's encoding.
    pub fn proof_bytes(&self) -> (r: Option<Vec<u8>>)
        ensures
            r is Some,
            r->Some_0@ == self@,
    {
        proof {
            use_type_invariant(self);
        }
        decode_cell(&self.data)
    }
}

/// The cells of one column, row 0 first.
pub struct L0Col {
    pub base_cells: Vec<BaseCell>,
}

impl View for L0Col {
    type V = Seq<Seq<u8>>;

    open spec fn view(&self) -> Seq<Seq<u8>> {
        self.base_cells@.map_values(|c: BaseCell| c@)
    }
}

/// The columns of one block, column 0 first.
pub struct L1Row {
    pub l0_cols: Vec<L0Col>,
}

impl View for L1Row {
    type V = Seq<Seq<Seq<u8>>>;

    open spec fn view(&self) -> Seq<Seq<Seq<u8>>> {
        self.l0_cols@.map_values(|c: L0Col| c@)
    }
}

/// The data-availability matrix of one block.
pub struct DataMatrix {
    pub block_num: i128,
    pub l1_row: L1Row,
}

/// Proof bytes decoded from an encoding read back from the store.
pub fn decode_cell(data: &Vec<u8>) -> (r: Option<Vec<u8>>)
    ensures
        r is Some <==> exists|p: Seq<u8>| #[trigger] cbor_bytes(p) == data@,
        r is Some ==> cbor_bytes(r->Some_0@) == data@,
        forall|p: Seq<u8>| #[trigger] cbor_bytes(p) == data@ ==> r is Some && r->Some_0@ == p,
{
    decode_byte_string(data)
}

/// Encodes the proof bytes of one coordinate as a cell.
pub fn construct_cell(fragment: Vec<u8>) -> (r: Result<BaseCell, ConstructionError>)
    ensures
        r is Ok <==> encodable(fragment@),
        r is Ok ==> r->Ok_0@ == fragment@,
        r is Err ==> r->Err_0 == ConstructionError::Encoding,
{
    let ghost p = fragment@;
    match encode_unit(Unit::Bytes(fragment)) {
        Ok(e) => Ok(BaseCell { cid: e.cid, data: e.data, payload: Ghost(p) }),
        Err(_) => Err(ConstructionError::Encoding),
    }
}

/// Builds the cells of one column from its proofs, row 0 first.
pub fn construct_colwise(proofs: &Vec<Vec<u8>>) -> (r: Result<L0Col, ConstructionError>)
    ensures
        r is Ok <==> forall|i: int| 0 <= i < proofs@.len() ==> encodable(#[trigger] proofs@[i]@),
        r is Ok ==> r->Ok_0@ == column_view(proofs@),
        r is Err ==> r->Err_0 == ConstructionError::Encoding,
{
    let mut base_cells: Vec<BaseCell> = Vec::with_capacity(proofs.len());
    let mut row: usize = 0;
    while row < proofs.len()
        invariant
            row <= proofs@.len(),
            base_cells@.len() == row,
            forall|i: int| 0 <= i < row ==> (#[trigger] base_cells@[i])@ == proofs@[i]@,
            forall|i: int| 0 <= i < row ==> encodable(#[trigger] proofs@[i]@),
        decreases proofs@.len() - row,
    {
        match construct_cell(proofs[row].clone()) {
            Ok(cell) => base_cells.push(cell),
            Err(e) => return Err(e),
        }
        row = row + 1;
    }
    let col = L0Col { base_cells };
    assert(col@ =~= column_view(proofs@));
    Ok(col)
}

/// Builds the columns of one block from their proofs, column 0 first.
pub fn construct_rowwise(proofs: &Vec<Vec<Vec<u8>>>) -> (r: Result<L1Row, ConstructionError>)
    ensures
        r is Ok <==> grid_encodable(proofs@),
        r is Ok ==> r->Ok_0@ == grid_view(proofs@),
        r is Err ==> r->Err_0 == ConstructionError::Encoding,
{
    let mut l0_cols: Vec<L0Col> = Vec::with_capacity(proofs.len());
    let mut col: usize = 0;
    while col < proofs.len()
        invariant
            col <= proofs@.len(),
            l0_cols@.len() == col,
            forall|i: int| 0 <= i < col ==> (#[trigger] l0_cols@[i])@ == column_view(proofs@[i]@),
            forall|c: int, r: int|
                0 <= c < col && 0 <= r < proofs@[c]@.len() ==> encodable(#[trigger] proofs@[c]@[r]@),
        decreases proofs@.len() - col,
    {
        match construct_colwise(&proofs[col]) {
            Ok(c) => l0_cols.push(c),
            Err(e) => {
                proof {
                    let r = choose|r: int| 0 <= r < proofs@[col as int]@.len() && !encodable(proofs@[col as int]@[r]@);
                    assert(!encodable(proofs@[col as int]@[r]@));
                }
                return Err(e);
            },
        }
        col = col + 1;
    }
    let row = L1Row { l0_cols };
    assert(row@ =~= grid_view(proofs@));
    Ok(row)
}

/// Builds the matrix of block `block` from the proofs of its `col_count`
/// columns of `row_count` rows each, indexed by column, then row.
pub fn construct_matrix(block: u64, row_count: u16, col_count: u16, proofs: &Vec<Vec<Vec<u8>>>) -> (r:
    Result<DataMatrix, ConstructionError>)
    ensures
        !grid_shaped(proofs@, row_count as nat, col_count as nat) ==> r == Err::<
            DataMatrix,
            ConstructionError,
        >(ConstructionError::ProofUnavailable),
        grid_shaped(proofs@, row_count as nat, col_count as nat) ==> (r is Ok <==> grid_encodable(proofs@)),
        grid_shaped(proofs@, row_count as nat, col_count as nat) && r is Err ==> r->Err_0
            == ConstructionError::Encoding,
        r is Ok ==> r->Ok_0.block_num == block as i128,
        r is Ok ==> r->Ok_0.l1_row@ == grid_view(proofs@),
        r is Ok ==> r->Ok_0.l1_row@.len() == col_count,
        r is Ok ==> forall|c: int| 0 <= c < col_count ==> (#[trigger] r->Ok_0.l1_row@[c]).len() == row_count,
{
    if proofs.len() != col_count as usize {
        return Err(ConstructionError::ProofUnavailable);
    }
    let mut col: usize = 0;
    while col < proofs.len()
        invariant
            col <= proofs@.len(),
            proofs@.len() == col_count,
            forall|c: int| 0 <= c < col ==> (#[trigger] proofs@[c])@.len() == row_count,
        decreases proofs@.len() - col,
    {
        if proofs[col].len() != row_count as usize {
            return Err(ConstructionError::ProofUnavailable);
        }
        col = col + 1;
    }
    let l1_row = construct_rowwise(proofs)?;
    proof {
        assert forall|c: int| 0 <= c < col_count implies (#[trigger] l1_row@[c]).len() == row_count by {
            assert(l1_row@[c] == grid_view(proofs@)[c]);
        }
    }
    Ok(DataMatrix { block_num: block as i128, l1_row })
}

/// Identifier bytes of each cell of a column, row 0 first.
pub open spec fn column_cids(col: Seq<Seq<u8>>) -> Seq<Seq<u8>> {
    col.map_values(|p: Seq<u8>| cell_cid(p))
}

/// Rows below `n` whose cell was not stored: those that `pushed` does not
/// mark as stored, in ascending order.
pub open spec fn failed_rows(pushed: Seq<bool>, n: nat) -> Seq<usize>
    decreases n,
{
    if n == 0 {
        Seq::empty()
    } else {
        let prev = failed_rows(pushed, (n - 1) as nat);
        if n - 1 < pushed.len() && pushed[n - 1] {
            prev
        } else {
            prev.push((n - 1) as usize)
        }
    }
}

/// Why a column could not be published.
#[derive(Debug)]
pub enum PublishError {
    /// The cells of these rows were not stored; the column would miss them.
    CellsFailed { rows: Vec<usize> },
    /// The column's list of links could not be encoded.
    Encoding,
    /// The store refused to pin or insert a unit.
    Store,
}

/// The unit that aggregates a column: the ordered links to its cells.
pub struct ColumnUnit {
    cid: Vec<u8>,
    data: Vec<u8>,
    links: Vec<Vec<u8>>,
}

impl View for ColumnUnit {
    /// The identifiers it links to, in order.
    type V = Seq<Seq<u8>>;

    closed spec fn view(&self) -> Seq<Seq<u8>> {
        link_views(self.links@)
    }
}

impl ColumnUnit {
    #[verifier::type_invariant]
    spec fn inv(self) -> bool {
        &&& self.data@ == cbor_links(link_views(self.links@))
        &&& self.cid@ == cid_for(self.data@)
    }

    /// The unit's content identifier, as bytes.
    pub fn cid(&self) -> (r: &Vec<u8>)
        ensures
            r@ == cid_for(cbor_links(self@)),
    {
        proof {
            use_type_invariant(self);
        }
        &self.cid
    }

    /// The unit's encoding, as stored.
    pub fn data(&self) -> (r: &Vec<u8>)
        ensures
            r@ == cbor_links(self@),
    {
        proof {
            use_type_invariant(self);
        }
        &self.data
    }

    /// The identifiers it links to, row 0 first.
    pub fn links(&self) -> (r: &Vec<Vec<u8>>)
        ensures
            link_views(r@) == self@,
    {
        &self.links
    }
}

/// Builds the unit of a column whose cells have been offered to the store;
/// `pushed[i]` tells whether the cell of row `i` was stored. Any row not
/// stored fails the whole column, and every such row is reported.
pub fn column_unit(col: &L0Col, pushed: &Vec<bool>) -> (r: Result<ColumnUnit, PublishError>)
    ensures
        failed_rows(pushed@, col.base_cells@.len()).len() > 0 ==> (match r {
            Err(PublishError::CellsFailed { rows }) => rows@ == failed_rows(
                pushed@,
                col.base_cells@.len(),
            ),
            _ => false,
        }),
        failed_rows(pushed@, col.base_cells@.len()).len() == 0 && r is Ok ==> r->Ok_0@
            == column_cids(col@),
        failed_rows(pushed@, col.base_cells@.len()).len() == 0 && r is Err ==> r->Err_0 is Encoding,
        failed_rows(pushed@, col.base_cells@.len()).len() == 0 ==> (r is Ok <==> cbor_links(
            column_cids(col@),
        ).len() <= MAX_UNIT_SIZE),
{
    let n = col.base_cells.len();
    let mut rows: Vec<usize> = Vec::new();
    let mut links: Vec<Vec<u8>> = Vec::with_capacity(n);
    let mut i: usize = 0;
    while i < n
        invariant
            n == col.base_cells@.len(),
            i <= n,
            rows@ == failed_rows(pushed@, i as nat),
            links@.len() == i,
            forall|j: int| 0 <= j < i ==> (#[trigger] links@[j])@ == cell_cid(col.base_cells@[j]@),
            forall|j: int| 0 <= j < i ==> well_formed_link((#[trigger] links@[j])@),
        decreases n - i,
    {
        if i >= pushed.len() || !pushed[i] {
            rows.push(i);
        }
        links.push(col.base_cells[i].cid().clone());
        i = i + 1;
    }
    if rows.len() > 0 {
        return Err(PublishError::CellsFailed { rows });
    }
    let kept = links.clone();
    proof {
        assert(link_views(links@) =~= column_cids(col@));
        assert(link_views(kept@) =~= link_views(links@));
        assert(unit_well_formed(Unit::Links(links)));
    }
    match encode_unit(Unit::Links(links)) {
        Ok(e) => Ok(ColumnUnit { cid: e.cid, data: e.data, links: kept }),
        Err(_) => Err(PublishError::Encoding),
    }
}

/// Content addressing: the same proof bytes always give the same encoding
/// and so the same identifier, however many times they are pushed.
pub proof fn lemma_same_proof_same_cid(p: Seq<u8>, q: Seq<u8>)
    requires
        p == q,
    ensures
        cbor_bytes(p) == cbor_bytes(q),
        cell_cid(p) == cell_cid(q),
{
}

/// Two cells with the same encoding have the same identifier.
pub proof fn lemma_same_encoding_same_cid(a: Seq<u8>, b: Seq<u8>)
    requires
        cbor_bytes(a) == cbor_bytes(b),
    ensures
        cell_cid(a) == cell_cid(b),
{
}

} // verus!
