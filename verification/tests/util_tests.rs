//! Little-endian reads and matrix dump layout.

use yallma3_llm::util::{dump_ranges, print_indices, slice_to_u32, PrintFormat, PrintRange, ELLIPSIS_INDEX};

#[test]
fn printed_indices_elide_the_middle() {
    assert_eq!(print_indices(PrintFormat::Full, 4, 2, 1), vec![0, 1, 2, 3]);
    assert_eq!(print_indices(PrintFormat::Summary1, 3, 3, 1), vec![0, 1, 2]);
    assert_eq!(print_indices(PrintFormat::Summary1, 10, 4, 2), vec![0, 1, ELLIPSIS_INDEX, 8, 9]);
    let full = print_indices(PrintFormat::Full, 1200, 4, 2);
    assert_eq!(full[999], 999);
    assert!(!full.contains(&ELLIPSIS_INDEX));
}

#[test]
fn dump_ranges_and_words() {
    assert_eq!(dump_ranges(10, PrintRange::HeadNTail, 3), vec![(0, 3), (7, 10)]);
    assert_eq!(dump_ranges(10, PrintRange::Tail, 4), vec![(6, 10)]);
    assert_eq!(slice_to_u32(&[1, 2, 0, 0]), 0x0201);
}
