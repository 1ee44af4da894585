use lxr_core::util::spec_defs::{
    define_side_metadata_specs, global_side_metadata_specs, local_side_metadata_specs,
    SideMetadataDecl, SideMetadataSpec, GLOBAL_SIDE_METADATA_BASE_OFFSET,
    LOCAL_SIDE_METADATA_BASE_OFFSET,
};

fn decl(
    name: &str,
    is_global: bool,
    log_num_of_bits: usize,
    log_bytes_in_region: usize,
) -> SideMetadataDecl {
    SideMetadataDecl { name: name.to_string(), is_global, log_num_of_bits, log_bytes_in_region }
}

fn last(specs: &Vec<SideMetadataSpec>) -> &SideMetadataSpec {
    &specs[specs.len() - 1]
}

#[test]
fn first_global_spec() {
    let specs = define_side_metadata_specs(vec![decl("TEST_SPEC", true, 0, 3)]);
    let test_spec = &specs[0];
    assert!(test_spec.is_global);
    assert!(test_spec.offset == GLOBAL_SIDE_METADATA_BASE_OFFSET);
    assert_eq!(test_spec.log_num_of_bits, 0);
    assert_eq!(test_spec.log_bytes_in_region, 3);
    assert_eq!(test_spec, last(&specs));
}

#[test]
fn first_local_spec() {
    let specs = define_side_metadata_specs(vec![decl("TEST_SPEC", false, 0, 3)]);
    let test_spec = &specs[0];
    assert!(!test_spec.is_global);
    assert!(test_spec.offset == LOCAL_SIDE_METADATA_BASE_OFFSET);
    assert_eq!(test_spec.log_num_of_bits, 0);
    assert_eq!(test_spec.log_bytes_in_region, 3);
    assert_eq!(test_spec, last(&specs));
}

#[test]
fn two_global_specs() {
    let specs = define_side_metadata_specs(vec![
        decl("TEST_SPEC1", true, 0, 3),
        decl("TEST_SPEC2", true, 1, 4),
    ]);
    assert!(specs[0].is_global);
    assert!(specs[0].offset == GLOBAL_SIDE_METADATA_BASE_OFFSET);
    assert_eq!(specs[0].log_num_of_bits, 0);
    assert_eq!(specs[0].log_bytes_in_region, 3);

    assert!(specs[1].is_global);
    assert!(specs[1].offset == specs[0].layout_after());
    assert_eq!(specs[1].log_num_of_bits, 1);
    assert_eq!(specs[1].log_bytes_in_region, 4);

    assert_eq!(&specs[1], last(&specs));
}

#[test]
fn three_global_specs() {
    let specs = define_side_metadata_specs(vec![
        decl("TEST_SPEC1", true, 0, 3),
        decl("TEST_SPEC2", true, 1, 4),
        decl("TEST_SPEC3", true, 2, 5),
    ]);
    assert!(specs[0].is_global);
    assert!(specs[0].offset == GLOBAL_SIDE_METADATA_BASE_OFFSET);
    assert_eq!(specs[0].log_num_of_bits, 0);
    assert_eq!(specs[0].log_bytes_in_region, 3);

    assert!(specs[1].is_global);
    assert!(specs[1].offset == specs[0].layout_after());
    assert_eq!(specs[1].log_num_of_bits, 1);
    assert_eq!(specs[1].log_bytes_in_region, 4);

    assert!(specs[2].is_global);
    assert!(specs[2].offset == specs[1].layout_after());
    assert_eq!(specs[2].log_num_of_bits, 2);
    assert_eq!(specs[2].log_bytes_in_region, 5);

    assert_eq!(&specs[2], last(&specs));
}

#[test]
fn both_global_and_local() {
    let gspecs = define_side_metadata_specs(vec![
        decl("TEST_GSPEC1", true, 0, 3),
        decl("TEST_GSPEC2", true, 1, 4),
    ]);
    let lspecs = define_side_metadata_specs(vec![
        decl("TEST_LSPEC1", false, 2, 5),
        decl("TEST_LSPEC2", false, 3, 6),
    ]);

    assert!(gspecs[0].is_global);
    assert!(gspecs[0].offset == GLOBAL_SIDE_METADATA_BASE_OFFSET);
    assert_eq!(gspecs[0].log_num_of_bits, 0);
    assert_eq!(gspecs[0].log_bytes_in_region, 3);

    assert!(gspecs[1].is_global);
    assert!(gspecs[1].offset == gspecs[0].layout_after());
    assert_eq!(gspecs[1].log_num_of_bits, 1);
    assert_eq!(gspecs[1].log_bytes_in_region, 4);

    assert_eq!(&gspecs[1], last(&gspecs));

    assert!(!lspecs[0].is_global);
    assert!(lspecs[0].offset == LOCAL_SIDE_METADATA_BASE_OFFSET);
    assert_eq!(lspecs[0].log_num_of_bits, 2);
    assert_eq!(lspecs[0].log_bytes_in_region, 5);

    assert!(!lspecs[1].is_global);
    assert!(lspecs[1].offset == lspecs[0].layout_after());
    assert_eq!(lspecs[1].log_num_of_bits, 3);
    assert_eq!(lspecs[1].log_bytes_in_region, 6);

    assert_eq!(&lspecs[1], last(&lspecs));
}

#[test]
fn table_of_one_bit_for_eight_bytes_takes_a_sixty_fourth() {
    let specs = define_side_metadata_specs(vec![decl("A", true, 0, 3)]);
    // The address space has 2^47 bytes.
    assert_eq!(specs[0].layout_after() - specs[0].offset, 1u64 << 41);
}

#[test]
fn tables_lie_one_after_another() {
    for specs in [global_side_metadata_specs(), local_side_metadata_specs()] {
        for i in 1..specs.len() {
            assert_eq!(specs[i].offset, specs[i - 1].layout_after());
            assert!(specs[i].offset > specs[i - 1].offset);
        }
    }
    let global = global_side_metadata_specs();
    assert!(last(&global).layout_after() <= LOCAL_SIDE_METADATA_BASE_OFFSET);
}
