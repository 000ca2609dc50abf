use superstruct::{generate_map_macro_name, snake_case};

#[test]
fn snake_case_correct() {
    assert_eq!(snake_case("BeaconBlock"), "beacon_block");
    assert_eq!(snake_case("SignedBeaconBlock"), "signed_beacon_block");
    assert_eq!(snake_case("StoreDHT"), "store_d_h_t");
    assert_eq!(snake_case("hello_world"), "hello_world");
    assert_eq!(snake_case("__"), "__");
}

#[test]
fn map_macro_names() {
    let block = "Block".to_string();
    let block_ref = "BlockRef".to_string();
    assert_eq!(generate_map_macro_name(&block, &block), "map_block");
    assert_eq!(generate_map_macro_name(&block_ref, &block), "map_block_ref_into_block");
}
