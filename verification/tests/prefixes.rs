use utmmmmm::prefixes::compress_prefixes;

fn bits(s: &str) -> Vec<bool> {
    s.chars().map(|c| c == '1').collect()
}

fn four_bit_codes() -> Vec<(usize, Vec<bool>)> {
    (0..16usize).map(|i| (i, (0..4).rev().map(|b| (i >> b) & 1 == 1).collect())).collect()
}

#[test]
fn compress_prefixes_doc_example() {
    let syms: Vec<usize> = (0..=10).collect();
    let r = compress_prefixes(&syms, &four_bit_codes());
    assert_eq!(r, vec![bits("0"), bits("100"), bits("1010")]);
}

#[test]
fn compress_prefixes_whole_and_single() {
    let all: Vec<usize> = (0..16).collect();
    assert_eq!(compress_prefixes(&all, &four_bit_codes()), vec![bits("")]);
    assert_eq!(compress_prefixes(&vec![5usize], &four_bit_codes()), vec![bits("0101")]);
    assert_eq!(compress_prefixes(&Vec::<usize>::new(), &four_bit_codes()), Vec::<Vec<bool>>::new());
}

#[test]
fn compress_prefixes_orders_shorter_first() {
    // 0..=3 give `00`; 8 and 9 give `100`; 15 gives `1111`.
    let syms: Vec<usize> = vec![15, 0, 1, 2, 3, 8, 9];
    let r = compress_prefixes(&syms, &four_bit_codes());
    assert_eq!(r, vec![bits("00"), bits("100"), bits("1111")]);
}
