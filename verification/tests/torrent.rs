//! Progress of the files of a torrent.

use xfer::status::bitfield_hex;
use xfer::torrent::{FileEntry, Info};

fn info_of(lengths: &[u64]) -> Info {
    let total: u64 = lengths.iter().sum();
    Info {
        name: "t".to_string(),
        piece_length: 10,
        pieces: total.div_ceil(10) as u32,
        files: lengths
            .iter()
            .enumerate()
            .map(|(i, len)| FileEntry { path: format!("f{i}.bin"), length: *len })
            .collect(),
        multi_file: true,
        private: false,
    }
}

fn bits_from(hex: &str) -> Vec<u8> {
    hex::decode(hex).unwrap()
}

#[test]
fn files_done_bytes_attributes_per_piece_segment() {
    let info = info_of(&[15, 10, 5]);
    assert_eq!(info.files_done_bytes(&bits_from("e0"), None, false), vec![15, 10, 5]);
    assert_eq!(info.files_done_bytes(&bits_from("80"), None, false), vec![10, 0, 0]);
    assert_eq!(info.files_done_bytes(&bits_from("40"), None, false), vec![5, 5, 0]);
}

#[test]
fn files_done_bytes_zeroes_unselected_files() {
    let info = info_of(&[15, 10, 5]);
    let per_file = info.files_done_bytes(&bits_from("e0"), Some(&vec![1]), false);
    assert_eq!(per_file, vec![0, 10, 0]);
    assert_eq!(per_file.iter().sum::<u64>(), 10);
}

#[test]
fn files_done_bytes_without_bitfield_falls_back_to_complete_flag() {
    let info = info_of(&[15, 10, 5]);
    assert_eq!(info.files_done_bytes(&vec![], Some(&vec![1]), true), vec![0, 10, 0]);
    assert_eq!(info.files_done_bytes(&vec![], Some(&vec![1]), false), vec![0, 0, 0]);
}

#[test]
fn wanted_bitfield_marks_pieces_of_selected_files() {
    let info = info_of(&[15, 10, 5]);
    assert!(info.wanted_bitfield(None).is_empty());
    assert_eq!(bitfield_hex(&info.wanted_bitfield(Some(&vec![1]))), "60");
    assert_eq!(bitfield_hex(&info.wanted_bitfield(Some(&vec![0]))), "c0");
    assert_eq!(bitfield_hex(&info.wanted_bitfield(Some(&vec![0, 1, 2]))), "e0");
}

#[test]
fn wanted_bitfield_empty_for_zero_length_file() {
    let info = info_of(&[10, 0, 10]);
    assert_eq!(bitfield_hex(&info.wanted_bitfield(Some(&vec![1]))), "00");
}

#[test]
fn the_lengths_of_the_files_add_up() {
    assert_eq!(info_of(&[15, 10, 5]).total_length(), 30);
}
