use simple8b::selector::{packing, Packing, BUF_SIZE, MAX_VALUE};

const TABLE: [(usize, usize); 16] = [
    (240, 0),
    (120, 0),
    (60, 1),
    (30, 2),
    (20, 3),
    (15, 4),
    (12, 5),
    (10, 6),
    (8, 7),
    (7, 8),
    (6, 10),
    (5, 12),
    (4, 15),
    (3, 20),
    (2, 30),
    (1, 60),
];

#[test]
fn table_has_the_sixteen_layouts() {
    for id in 0..16u64 {
        let (n, bit) = TABLE[id as usize];
        assert_eq!(packing(id), Packing { n, bit });
    }
}

#[test]
fn table_counts_fall_and_widths_rise() {
    for id in 1..16u64 {
        assert!(packing(id - 1).n >= packing(id).n);
        assert!(packing(id - 1).bit <= packing(id).bit);
    }
}

#[test]
fn table_layouts_fit_the_payload() {
    for id in 0..16u64 {
        let p = packing(id);
        assert!(p.n * p.bit <= 60);
        assert!(p.n >= 1 && p.n <= BUF_SIZE);
    }
}

#[test]
fn constants_have_their_values() {
    assert_eq!(MAX_VALUE, (1u64 << 60) - 1);
    assert_eq!(BUF_SIZE, 240);
}
