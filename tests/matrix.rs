use da_node::data::{
    column_unit, construct_cell, construct_colwise, construct_matrix, construct_rowwise, decode_cell,
    ConstructionError, PublishError,
};

fn proof_of(block: u64, row: u16, col: u16) -> Vec<u8> {
    let mut p = block.to_be_bytes().to_vec();
    p.extend_from_slice(&row.to_be_bytes());
    p.extend_from_slice(&col.to_be_bytes());
    p
}

fn grid(block: u64, row_count: u16, col_count: u16) -> Vec<Vec<Vec<u8>>> {
    (0..col_count)
        .map(|c| (0..row_count).map(|r| proof_of(block, r, c)).collect())
        .collect()
}

#[test]
fn cell_encoding_is_a_cbor_byte_string() {
    let cell = construct_cell(vec![1, 2, 3]).unwrap();
    assert_eq!(cell.data(), &vec![0x43, 1, 2, 3]);
    assert_eq!(cell.cid().len(), 36);
    assert_eq!(&cell.cid()[..4], &[0x01, 0x71, 0x1e, 0x20]);
}

#[test]
fn cell_encoding_heads_by_length() {
    let empty = construct_cell(vec![]).unwrap();
    assert_eq!(empty.data(), &vec![0x40]);
    let c24 = construct_cell(vec![7; 24]).unwrap();
    assert_eq!(&c24.data()[..2], &[0x58, 24]);
    assert_eq!(c24.data().len(), 26);
    let c300 = construct_cell(vec![7; 300]).unwrap();
    assert_eq!(&c300.data()[..3], &[0x59, 0x01, 0x2c]);
    let c70000 = construct_cell(vec![7; 70000]).unwrap();
    assert_eq!(&c70000.data()[..5], &[0x5a, 0x00, 0x01, 0x11, 0x70]);
    assert_eq!(c70000.data().len(), 70005);
}

#[test]
fn cell_size_limit() {
    assert!(construct_cell(vec![0; 1_048_571]).is_ok());
    assert!(matches!(construct_cell(vec![0; 1_048_572]), Err(ConstructionError::Encoding)));
}

#[test]
fn same_bytes_same_cid() {
    let a = construct_cell(proof_of(10, 1, 2)).unwrap();
    let b = construct_cell(proof_of(10, 1, 2)).unwrap();
    let c = construct_cell(proof_of(10, 2, 1)).unwrap();
    assert_eq!(a.cid(), b.cid());
    assert_eq!(a.data(), b.data());
    assert_ne!(a.cid(), c.cid());
}

#[test]
fn cell_round_trip() {
    let p = proof_of(99, 3, 4);
    let cell = construct_cell(p.clone()).unwrap();
    assert_eq!(cell.proof_bytes(), Some(p.clone()));
    assert_eq!(decode_cell(cell.data()), Some(p));
    assert_eq!(decode_cell(&vec![0x01]), None);
}

#[test]
fn colwise_keeps_row_order() {
    let proofs: Vec<Vec<u8>> = (0..5).map(|r| proof_of(1, r, 0)).collect();
    let col = construct_colwise(&proofs).unwrap();
    assert_eq!(col.base_cells.len(), 5);
    for (r, cell) in col.base_cells.iter().enumerate() {
        assert_eq!(cell.proof_bytes(), Some(proofs[r].clone()));
    }
}

#[test]
fn colwise_fails_on_oversized_proof() {
    let proofs = vec![vec![1], vec![0; 1_048_572]];
    assert!(matches!(construct_colwise(&proofs), Err(ConstructionError::Encoding)));
}

#[test]
fn rowwise_keeps_column_order() {
    let g = grid(5, 2, 3);
    let row = construct_rowwise(&g).unwrap();
    assert_eq!(row.l0_cols.len(), 3);
    for c in 0..3 {
        for r in 0..2 {
            assert_eq!(row.l0_cols[c].base_cells[r].proof_bytes(), Some(g[c][r].clone()));
        }
    }
}

#[test]
fn matrix_for_block_ten() {
    let g = grid(10, 4, 3);
    let m = construct_matrix(10, 4, 3, &g).unwrap();
    assert_eq!(m.block_num, 10);
    assert_eq!(m.l1_row.l0_cols.len(), 3);
    for c in 0..3 {
        assert_eq!(m.l1_row.l0_cols[c].base_cells.len(), 4);
        for r in 0..4 {
            assert_eq!(m.l1_row.l0_cols[c].base_cells[r].proof_bytes(), Some(g[c][r].clone()));
        }
    }
    let unit = column_unit(&m.l1_row.l0_cols[0], &vec![true; 4]).unwrap();
    assert_eq!(unit.links().len(), 4);
    for r in 0..4 {
        assert_eq!(&unit.links()[r], m.l1_row.l0_cols[0].base_cells[r].cid());
    }
}

#[test]
fn matrix_empty_dimensions() {
    let m = construct_matrix(3, 0, 0, &vec![]).unwrap();
    assert_eq!(m.l1_row.l0_cols.len(), 0);
    let m = construct_matrix(3, 0, 2, &vec![vec![], vec![]]).unwrap();
    assert_eq!(m.l1_row.l0_cols.len(), 2);
    assert!(m.l1_row.l0_cols.iter().all(|c| c.base_cells.is_empty()));
}

#[test]
fn matrix_wide_block_number() {
    let m = construct_matrix(u64::MAX, 1, 1, &grid(u64::MAX, 1, 1)).unwrap();
    assert_eq!(m.block_num, u64::MAX as i128);
}

#[test]
fn matrix_missing_proofs() {
    let g = grid(10, 4, 3);
    assert!(matches!(construct_matrix(10, 4, 4, &g), Err(ConstructionError::ProofUnavailable)));
    assert!(matches!(construct_matrix(10, 5, 3, &g), Err(ConstructionError::ProofUnavailable)));
    let mut ragged = g.clone();
    ragged[1].pop();
    assert!(matches!(construct_matrix(10, 4, 3, &ragged), Err(ConstructionError::ProofUnavailable)));
}

#[test]
fn column_unit_encodes_links_in_row_order() {
    let proofs: Vec<Vec<u8>> = (0..4).map(|r| proof_of(10, r, 0)).collect();
    let col = construct_colwise(&proofs).unwrap();
    let unit = column_unit(&col, &vec![true; 4]).unwrap();
    let data = unit.data();
    assert_eq!(data.len(), 1 + 4 * 41);
    assert_eq!(data[0], 0x84);
    for r in 0..4 {
        let item = &data[1 + r * 41..1 + (r + 1) * 41];
        assert_eq!(&item[..5], &[0xd8, 0x2a, 0x58, 0x25, 0x00]);
        assert_eq!(&item[5..], &col.base_cells[r].cid()[..]);
    }
    assert_eq!(&unit.cid()[..4], &[0x01, 0x71, 0x1e, 0x20]);
    assert_eq!(unit.cid().len(), 36);
    assert_ne!(unit.cid(), col.base_cells[0].cid());
}

#[test]
fn column_unit_of_empty_column() {
    let col = construct_colwise(&vec![]).unwrap();
    let unit = column_unit(&col, &vec![]).unwrap();
    assert_eq!(unit.data(), &vec![0x80]);
    assert!(unit.links().is_empty());
}

#[test]
fn column_unit_reports_failed_rows() {
    let proofs: Vec<Vec<u8>> = (0..4).map(|r| proof_of(10, r, 0)).collect();
    let col = construct_colwise(&proofs).unwrap();
    match column_unit(&col, &vec![true, false, true, false]) {
        Err(PublishError::CellsFailed { rows }) => assert_eq!(rows, vec![1, 3]),
        other => panic!("unexpected {:?}", other.err()),
    }
    match column_unit(&col, &vec![true, true]) {
        Err(PublishError::CellsFailed { rows }) => assert_eq!(rows, vec![2, 3]),
        other => panic!("unexpected {:?}", other.err()),
    }
}

#[test]
fn decode_rejects_oversized_length_claim() {
    let mut data = vec![0x5b];
    data.extend_from_slice(&[0xff; 8]);
    assert_eq!(decode_cell(&data), None);
}

#[test]
fn decode_rejects_malformed_heads() {
    assert_eq!(decode_cell(&vec![]), None);
    assert_eq!(decode_cell(&vec![0x58, 0x01, 0x07]), None);
    assert_eq!(decode_cell(&vec![0x42, 0x01]), None);
    assert_eq!(decode_cell(&vec![0x41, 0x01, 0x02]), None);
    assert_eq!(decode_cell(&vec![0x61, 0x61]), None);
    assert_eq!(decode_cell(&vec![0x41, 0x09]), Some(vec![0x09]));
    let mut long = vec![0x59, 0x01, 0x00];
    long.extend_from_slice(&[5; 256]);
    assert_eq!(decode_cell(&long), Some(vec![5; 256]));
}

#[test]
fn equal_columns_same_unit_cid() {
    let proofs: Vec<Vec<u8>> = (0..3).map(|r| proof_of(4, r, 1)).collect();
    let a = construct_colwise(&proofs).unwrap();
    let b = construct_colwise(&proofs).unwrap();
    let ua = column_unit(&a, &vec![true; 3]).unwrap();
    let ub = column_unit(&b, &vec![true; 3]).unwrap();
    assert_eq!(ua.cid(), ub.cid());
    assert_eq!(ua.data(), ub.data());
}
