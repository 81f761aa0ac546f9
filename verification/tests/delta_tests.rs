use dry_exec_core::delta::assemble_state_delta;
use dry_exec_core::delta::fs::{FsSnapshot, InodeRecord};
use dry_exec_core::delta::macos_fs::{compute_macos_fs_delta, FsEntry};
use dry_exec_core::delta::memory::{aligned_region_len, page_count, PAGE_SIZE};
use dry_exec_core::delta::pagemap::{
    collect_page_mutations, compute_slice_deltas, dirty_page_candidates, page_location, page_mutation,
};
use dry_exec_core::delta::types::{ByteDelta, FsMutation, InterceptedRequest, PageMutation, StateDelta};
use dry_exec_core::error::DeltaError;

fn apply(baseline: &[u8], base: usize, deltas: &[ByteDelta]) -> Vec<u8> {
    let mut out = baseline.to_vec();
    for d in deltas {
        let start = d.offset - base;
        out[start..start + d.mutated.len()].copy_from_slice(&d.mutated);
    }
    out
}

#[test]
fn slice_deltas_are_maximal_runs() {
    let baseline = [0u8, 1, 2, 3, 4, 5, 6, 7];
    let mutated = [0u8, 9, 9, 3, 4, 9, 6, 9];
    let deltas = compute_slice_deltas(4096, &baseline, &mutated);
    assert_eq!(
        deltas,
        vec![
            ByteDelta { offset: 4097, original: vec![1, 2], mutated: vec![9, 9] },
            ByteDelta { offset: 4101, original: vec![5], mutated: vec![9] },
            ByteDelta { offset: 4103, original: vec![7], mutated: vec![9] },
        ]
    );
    assert_eq!(apply(&baseline, 4096, &deltas), mutated.to_vec());
}

#[test]
fn identical_slices_have_no_delta() {
    let bytes = [7u8; 64];
    assert!(compute_slice_deltas(0, &bytes, &bytes).is_empty());
    assert!(compute_slice_deltas(0, &[], &[]).is_empty());
}

#[test]
fn fully_mutated_slice_is_one_delta() {
    let deltas = compute_slice_deltas(12288, &[1, 2, 3, 4], &[0xDE, 0xAD, 0xBE, 0xEF]);
    assert_eq!(deltas.len(), 1);
    assert_eq!(deltas[0].offset, 12288);
    assert_eq!(deltas[0].original, vec![1, 2, 3, 4]);
    assert_eq!(deltas[0].mutated, vec![0xDE, 0xAD, 0xBE, 0xEF]);
}

fn descriptor(entry: u64) -> [u8; 8] {
    entry.to_le_bytes()
}

#[test]
fn dirty_candidates_follow_present_and_soft_dirty_bits() {
    let present = 1u64 << 63;
    let soft_dirty = 1u64 << 55;
    let exclusive = 1u64 << 56;
    let mut d = Vec::new();
    d.extend_from_slice(&descriptor(present));
    d.extend_from_slice(&descriptor(present | soft_dirty));
    d.extend_from_slice(&descriptor(soft_dirty));
    d.extend_from_slice(&descriptor(present | exclusive));
    d.extend_from_slice(&descriptor(present | soft_dirty | exclusive));
    assert_eq!(dirty_page_candidates(&d, 5), vec![1, 4]);
}

#[test]
fn exclusive_bit_stands_in_when_soft_dirty_is_masked() {
    let present = 1u64 << 63;
    let exclusive = 1u64 << 56;
    let mut d = Vec::new();
    d.extend_from_slice(&descriptor(present));
    d.extend_from_slice(&descriptor(present | exclusive));
    d.extend_from_slice(&descriptor(exclusive));
    assert_eq!(dirty_page_candidates(&d, 3), vec![1]);
    assert!(dirty_page_candidates(&[], 0).is_empty());
}

#[test]
fn page_mutations_of_two_dirty_pages() {
    let region_len = 4 * PAGE_SIZE;
    let baseline: Vec<u8> = (0..region_len).map(|i| (i % 251) as u8).collect();
    let mut child1 = baseline[4096..8192].to_vec();
    child1[0..8].copy_from_slice(&[0xAA, 0xBB, 0xCC, 0xDD, 0xEE, 0xFF, 0x11, 0x22]);
    let mut child3 = baseline[12288..16384].to_vec();
    child3[0..4].copy_from_slice(&[0xDE, 0xAD, 0xBE, 0xEF]);
    let clean = baseline[8192..12288].to_vec();
    let pages = collect_page_mutations(
        0x7000_0000,
        region_len,
        &baseline,
        &vec![1, 2, 3],
        &vec![child1, clean.clone(), child3],
    );
    assert_eq!(pages.len(), 2);
    assert_eq!(pages[0].page_index, 1);
    assert_eq!(pages[0].page_address, 0x7000_0000 + 4096);
    assert_eq!(pages[0].deltas.len(), 1);
    assert_eq!(pages[0].deltas[0].offset, 4096);
    assert_eq!(pages[0].deltas[0].mutated, vec![0xAA, 0xBB, 0xCC, 0xDD, 0xEE, 0xFF, 0x11, 0x22]);
    assert_eq!(pages[1].page_index, 3);
    assert_eq!(pages[1].deltas[0].offset, 12288);
    assert_eq!(pages[1].deltas[0].mutated, vec![0xDE, 0xAD, 0xBE, 0xEF]);
    assert!(page_mutation(2, 0, region_len, &baseline, &clean).is_none());
}

#[test]
fn last_page_of_a_partial_region_is_short() {
    let baseline = vec![0u8; 5000];
    let mut child = vec![0u8; 904];
    child[903] = 1;
    let m = page_mutation(1, 0, 5000, &baseline, &child).unwrap();
    assert_eq!(m.deltas[0].offset, 4999);
    assert_eq!(page_count(5000), 2);
    assert_eq!(page_count(8192), 2);
    assert_eq!(page_count(0), 0);
}

#[test]
fn allocation_length_is_page_aligned() {
    assert_eq!(aligned_region_len(1).unwrap(), 4096);
    assert_eq!(aligned_region_len(4096).unwrap(), 4096);
    assert_eq!(aligned_region_len(10 * 1024 * 1024).unwrap(), 10 * 1024 * 1024);
    assert_eq!(aligned_region_len(4097).unwrap(), 8192);
    assert!(matches!(aligned_region_len(0), Err(DeltaError::MmapFailure(_))));
    assert!(matches!(aligned_region_len(usize::MAX), Err(DeltaError::MmapFailure(_))));
}

fn record(ino: u64, size: u64, mtime: i64) -> InodeRecord {
    InodeRecord { ino, mode: 0o100644, size, mtime_sec: mtime, mtime_nsec: 0 }
}

fn entry(path: &str, rec: InodeRecord, content: &[u8]) -> (String, InodeRecord, Vec<u8>) {
    (path.to_string(), rec, content.to_vec())
}

#[test]
fn fs_delta_classifies_created_modified_replaced_and_deleted() {
    let base = FsSnapshot::capture(
        "/tmp/root".to_string(),
        vec![
            entry("a.txt", record(1, 10, 100), b"0123456789"),
            entry("b.txt", record(2, 10, 100), b"0123456789"),
            entry("c.txt", record(3, 10, 100), b"0123456789"),
            entry("gone.txt", record(4, 1, 100), b"x"),
        ],
    );
    let current = FsSnapshot::capture(
        "/tmp/root".to_string(),
        vec![
            entry("a.txt", record(1, 10, 100), b"0123456789"),
            entry("b.txt", record(2, 11, 101), b"01X345678YZ"),
            entry("c.txt", record(9, 10, 100), b"0123456789"),
            entry("new.bin", record(5, 21, 100), b""),
        ],
    );
    let delta = base.compute_delta(&current);
    assert_eq!(
        delta,
        vec![
            FsMutation::Modified {
                path: "b.txt".to_string(),
                deltas: vec![
                    ByteDelta { offset: 2, original: b"2".to_vec(), mutated: b"X".to_vec() },
                    ByteDelta { offset: 9, original: b"9".to_vec(), mutated: b"Y".to_vec() },
                    ByteDelta { offset: 10, original: Vec::new(), mutated: b"Z".to_vec() },
                ],
            },
            FsMutation::Created { path: "c.txt".to_string(), mode: 0o100644, size: 10 },
            FsMutation::Created { path: "new.bin".to_string(), mode: 0o100644, size: 21 },
            FsMutation::Deleted { path: "gone.txt".to_string() },
        ]
    );
}

#[test]
fn rewritten_content_is_modified_even_with_the_same_size_and_time() {
    let base = FsSnapshot::capture("/r".to_string(), vec![entry("f", record(1, 8, 7), b"abcdefgh")]);
    let current = FsSnapshot::capture("/r".to_string(), vec![entry("f", record(1, 8, 7), b"abXYefgZ")]);
    assert_eq!(
        base.compute_delta(&current),
        vec![FsMutation::Modified {
            path: "f".to_string(),
            deltas: vec![
                ByteDelta { offset: 2, original: b"cd".to_vec(), mutated: b"XY".to_vec() },
                ByteDelta { offset: 7, original: b"h".to_vec(), mutated: b"Z".to_vec() },
            ],
        }]
    );
}

#[test]
fn truncated_file_reports_the_removed_tail() {
    let base = FsSnapshot::capture("/r".to_string(), vec![entry("f", record(1, 6, 1), b"abcdef")]);
    let current = FsSnapshot::capture("/r".to_string(), vec![entry("f", record(1, 3, 2), b"abc")]);
    assert_eq!(
        base.compute_delta(&current),
        vec![FsMutation::Modified {
            path: "f".to_string(),
            deltas: vec![ByteDelta { offset: 3, original: b"def".to_vec(), mutated: Vec::new() }],
        }]
    );
}

#[test]
fn touched_file_with_unchanged_content_has_no_byte_delta() {
    let base = FsSnapshot::capture("/r".to_string(), vec![entry("f", record(1, 3, 1), b"abc")]);
    let current = FsSnapshot::capture("/r".to_string(), vec![entry("f", record(1, 3, 2), b"abc")]);
    assert_eq!(
        base.compute_delta(&current),
        vec![FsMutation::Modified { path: "f".to_string(), deltas: Vec::new() }]
    );
}

#[test]
fn unchanged_snapshot_has_empty_fs_delta() {
    let entries = vec![entry("d", record(1, 4096, 5), b""), entry("d/f", record(2, 3, 6), b"abc")];
    let base = FsSnapshot::capture("/r".to_string(), entries.clone());
    let again = FsSnapshot::capture("/r".to_string(), entries);
    assert!(base.compute_delta(&again).is_empty());
}

#[test]
fn capture_keeps_the_last_record_of_a_path() {
    let snap = FsSnapshot::capture(
        "/r".to_string(),
        vec![entry("x", record(1, 1, 1), b"a"), entry("x", record(1, 2, 2), b"ab")],
    );
    assert_eq!(snap.records, vec![entry("x", record(1, 2, 2), b"ab")]);
    assert_eq!(snap.root, "/r");
}

fn file(path: &[&str], content: &[u8]) -> FsEntry {
    FsEntry {
        components: path.iter().map(|c| c.to_string()).collect(),
        is_dir: false,
        mode: 0o100644,
        size: content.len() as u64,
        content: content.to_vec(),
    }
}

fn dir(path: &[&str]) -> FsEntry {
    FsEntry {
        components: path.iter().map(|c| c.to_string()).collect(),
        is_dir: true,
        mode: 0o040755,
        size: 4096,
        content: Vec::new(),
    }
}

#[test]
fn clone_delta_reports_created_and_modified_files() {
    let baseline = vec![file(&["config.json"], b"{\"env\": \"baseline\"}")];
    let ephemeral = vec![
        file(&["config.json"], b"{\"env\": \"mutated\"}"),
        file(&["output.log"], b"new logs"),
    ];
    let deltas = compute_macos_fs_delta(Some(&baseline), Some(&ephemeral));
    assert_eq!(deltas.len(), 2);
    assert_eq!(
        deltas[0],
        FsMutation::Modified {
            path: "config.json".to_string(),
            deltas: vec![ByteDelta {
                offset: 0,
                original: b"{\"env\": \"baseline\"}".to_vec(),
                mutated: b"{\"env\": \"mutated\"}".to_vec(),
            }],
        }
    );
    assert_eq!(deltas[1], FsMutation::Created { path: "output.log".to_string(), mode: 0o100644, size: 8 });
}

#[test]
fn clone_delta_reports_deleted_directory_once() {
    let baseline = vec![
        dir(&["logs"]),
        file(&["logs", "a.log"], b"a"),
        dir(&["keep"]),
        file(&["keep", "x"], b"x"),
        file(&["keep", "y"], b"y"),
    ];
    let ephemeral = vec![dir(&["keep"]), file(&["keep", "x"], b"x")];
    let deltas = compute_macos_fs_delta(Some(&baseline), Some(&ephemeral));
    assert_eq!(
        deltas,
        vec![
            FsMutation::Deleted { path: "logs".to_string() },
            FsMutation::Deleted { path: "keep/y".to_string() },
        ]
    );
}

#[test]
fn clone_delta_edge_cases() {
    let baseline = vec![file(&["a"], b"a")];
    assert!(compute_macos_fs_delta(Some(&baseline), None).is_empty());
    let ephemeral = vec![file(&["a"], b"a"), dir(&["empty"])];
    assert!(compute_macos_fs_delta(Some(&baseline), Some(&ephemeral)).is_empty());
    let created = compute_macos_fs_delta(None, Some(&ephemeral));
    assert_eq!(created, vec![FsMutation::Created { path: "a".to_string(), mode: 0o100644, size: 1 }]);
}

#[test]
fn state_delta_counts_mutated_bytes_across_boundaries() {
    let pages = vec![PageMutation {
        page_index: 1,
        page_address: 4096,
        deltas: vec![
            ByteDelta { offset: 4096, original: vec![0; 8], mutated: vec![1; 8] },
            ByteDelta { offset: 5000, original: vec![0; 4], mutated: vec![1; 4] },
        ],
    }];
    let fs = vec![
        FsMutation::Created { path: "f".to_string(), mode: 0o644, size: 21 },
        FsMutation::Modified {
            path: "g".to_string(),
            deltas: vec![ByteDelta { offset: 0, original: vec![], mutated: vec![7; 5] }],
        },
        FsMutation::Deleted { path: "h".to_string() },
    ];
    let net = vec![InterceptedRequest {
        method: "POST".to_string(),
        url: "/v1/charges".to_string(),
        headers: Vec::new(),
        request_body: b"{}".to_vec(),
        response_status: 200,
        response_body: Vec::new(),
    }];
    let delta = assemble_state_delta(pages, fs, net, 1, 99).expect("the total fits");
    assert_eq!(delta.total_bytes_mutated, 8 + 4 + 21 + 5 + 2);
    assert_eq!(delta.schema_breaches, 1);
    assert_eq!(delta.duration_nanos, 99);
    let empty = StateDelta::empty();
    assert_eq!(empty.total_bytes_mutated, 0);
    assert!(empty.memory_mutations.is_empty() && empty.fs_mutations.is_empty() && empty.network_mutations.is_empty());
    assert_eq!(StateDelta::default(), empty);
}

#[test]
fn state_delta_total_that_overflows_is_refused() {
    let fs = vec![
        FsMutation::Created { path: "a".to_string(), mode: 0o644, size: u64::MAX },
        FsMutation::Created { path: "b".to_string(), mode: 0o644, size: 2 },
    ];
    assert!(assemble_state_delta(Vec::new(), fs, Vec::new(), 0, 0).is_none());
}

#[test]
fn page_locations_cover_the_region() {
    assert_eq!(page_location(0x10000, 10000, 0), (0x10000, 4096));
    assert_eq!(page_location(0x10000, 10000, 1), (0x11000, 4096));
    assert_eq!(page_location(0x10000, 10000, 2), (0x12000, 10000 - 8192));
    assert_eq!(page_location(0x10000, 10000, 3), (0x13000, 0));
}

#[test]
fn untouched_clone_has_empty_delta() {
    let tree = vec![
        dir(&["etc"]),
        file(&["etc", "config.json"], b"{\"env\": \"baseline\"}"),
        file(&["readme"], b"hello"),
    ];
    assert!(compute_macos_fs_delta(Some(&tree), Some(&tree.clone())).is_empty());
}

#[test]
fn four_byte_write_in_a_ten_megabyte_region_is_one_page_delta() {
    let region_len = 10 * 1024 * 1024;
    let baseline = vec![0u8; region_len];
    let offset = 0x004A_0000usize;
    let page = offset / PAGE_SIZE;
    assert_eq!(page, 1184);
    let mut child_page = vec![0u8; PAGE_SIZE];
    child_page[0..4].copy_from_slice(&[0xDE, 0xAD, 0xBE, 0xEF]);
    let clean_page = vec![0u8; PAGE_SIZE];
    let mutations = collect_page_mutations(
        0x7f00_0000_0000,
        region_len,
        &baseline,
        &vec![3, page],
        &vec![clean_page, child_page],
    );
    assert_eq!(mutations.len(), 1);
    assert_eq!(mutations[0].page_index, 1184);
    assert_eq!(mutations[0].page_address, 0x7f00_0000_0000 + offset);
    assert_eq!(
        mutations[0].deltas,
        vec![ByteDelta { offset, original: vec![0; 4], mutated: vec![0xDE, 0xAD, 0xBE, 0xEF] }]
    );
}
