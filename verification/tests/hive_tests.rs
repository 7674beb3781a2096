use nt_hive::{Hive, KeyValueData, KeyValueDataType, NtHiveError, NtHiveNameString};

// ---------------------------------------------------------------------------
// A small builder that assembles a syntactically valid hive image in memory.
// Cells are allocated bottom-up; offsets are relative to the cell area.
// ---------------------------------------------------------------------------

struct HiveBuilder {
    cells: Vec<u8>,
}

impl HiveBuilder {
    fn new() -> Self {
        HiveBuilder { cells: Vec::new() }
    }

    /// Allocates a cell holding `body` and returns its data offset.
    fn add_cell(&mut self, body: &[u8]) -> u32 {
        let off = self.cells.len() as u32;
        let total = ((body.len() + 4 + 7) / 8) * 8;
        let size = -(total as i32);
        self.cells.extend_from_slice(&size.to_le_bytes());
        self.cells.extend_from_slice(body);
        self.cells.resize(off as usize + total, 0);
        off
    }

    /// Finishes the image: base block with a valid checksum plus cell area.
    fn finish(mut self, root_offset: u32) -> Vec<u8> {
        let data_size = ((self.cells.len() + 4095) / 4096) * 4096;
        self.cells.resize(data_size, 0);

        let mut base = vec![0u8; 4096];
        base[0..4].copy_from_slice(b"regf");
        base[4..8].copy_from_slice(&1u32.to_le_bytes()); // primary sequence
        base[8..12].copy_from_slice(&1u32.to_le_bytes()); // secondary sequence
        base[20..24].copy_from_slice(&1u32.to_le_bytes()); // major version
        base[24..28].copy_from_slice(&5u32.to_le_bytes()); // minor version
        base[28..32].copy_from_slice(&0u32.to_le_bytes()); // file type: primary
        base[32..36].copy_from_slice(&1u32.to_le_bytes()); // file format: memory
        base[36..40].copy_from_slice(&root_offset.to_le_bytes());
        base[40..44].copy_from_slice(&(data_size as u32).to_le_bytes());
        base[44..48].copy_from_slice(&1u32.to_le_bytes()); // clustering factor
        write_checksum(&mut base);

        let mut image = base;
        image.extend_from_slice(&self.cells);
        image
    }
}

fn write_checksum(base: &mut [u8]) {
    let mut checksum = 0u32;
    for word in base[..508].chunks(4) {
        checksum ^= u32::from_le_bytes(word.try_into().unwrap());
    }
    if checksum == 0 {
        checksum = 1;
    } else if checksum == u32::MAX {
        checksum = u32::MAX - 1;
    }
    base[508..512].copy_from_slice(&checksum.to_le_bytes());
}

fn utf16le(s: &str) -> Vec<u8> {
    let mut r = Vec::new();
    for u in s.encode_utf16() {
        r.extend_from_slice(&u.to_le_bytes());
    }
    r
}

const NO_OFFSET: u32 = 0xFFFF_FFFF;

/// Builds an `nk` record. A name given as `Latin1` is stored single-byte
/// with the compressed-name flag; otherwise it is stored UTF-16LE.
fn nk(name_latin1: Option<&str>, name_utf16: Option<&str>, subkeys: u32, subkey_count: u32, values: u32, value_count: u32) -> Vec<u8> {
    let (flags, name_bytes): (u16, Vec<u8>) = match (name_latin1, name_utf16) {
        (Some(n), None) => (0x0020, n.chars().map(|c| c as u32 as u8).collect()),
        (None, Some(n)) => (0, utf16le(n)),
        _ => panic!("exactly one name encoding expected"),
    };
    let mut r = vec![0u8; 76];
    r[0..2].copy_from_slice(b"nk");
    r[2..4].copy_from_slice(&flags.to_le_bytes());
    r[20..24].copy_from_slice(&subkey_count.to_le_bytes());
    r[24..28].copy_from_slice(&7u32.to_le_bytes()); // volatile subkey count, nonzero on purpose
    r[28..32].copy_from_slice(&subkeys.to_le_bytes());
    r[32..36].copy_from_slice(&NO_OFFSET.to_le_bytes());
    r[36..40].copy_from_slice(&value_count.to_le_bytes());
    r[40..44].copy_from_slice(&values.to_le_bytes());
    r[44..48].copy_from_slice(&NO_OFFSET.to_le_bytes());
    r[48..52].copy_from_slice(&NO_OFFSET.to_le_bytes());
    r[72..74].copy_from_slice(&(name_bytes.len() as u16).to_le_bytes());
    r.extend_from_slice(&name_bytes);
    r
}

fn nk_ascii(name: &str, subkeys: u32, subkey_count: u32, values: u32, value_count: u32) -> Vec<u8> {
    nk(Some(name), None, subkeys, subkey_count, values, value_count)
}

/// Attaches a class-name reference to a built `nk` record.
fn set_class(record: &mut Vec<u8>, class_offset: u32, class_len: u16) {
    record[48..52].copy_from_slice(&class_offset.to_le_bytes());
    record[74..76].copy_from_slice(&class_len.to_le_bytes());
}

/// Builds a `vk` record with an out-of-line data cell reference.
fn vk(name: &str, data_type: u32, data_size: u32, data_offset: u32) -> Vec<u8> {
    let name_bytes: Vec<u8> = name.chars().map(|c| c as u32 as u8).collect();
    let mut r = vec![0u8; 20];
    r[0..2].copy_from_slice(b"vk");
    r[2..4].copy_from_slice(&(name_bytes.len() as u16).to_le_bytes());
    r[4..8].copy_from_slice(&data_size.to_le_bytes());
    r[8..12].copy_from_slice(&data_offset.to_le_bytes());
    r[12..16].copy_from_slice(&data_type.to_le_bytes());
    r[16..18].copy_from_slice(&1u16.to_le_bytes()); // name in Latin-1
    r.extend_from_slice(&name_bytes);
    r
}

/// Builds an `lh` Leaf over the given key-node offsets.
fn lh(offsets: &[u32]) -> Vec<u8> {
    let mut r = Vec::new();
    r.extend_from_slice(b"lh");
    r.extend_from_slice(&(offsets.len() as u16).to_le_bytes());
    for off in offsets {
        r.extend_from_slice(&off.to_le_bytes());
        r.extend_from_slice(&0u32.to_le_bytes());
    }
    r
}

/// Builds an `ri` Index Root over the given Leaf-list offsets.
fn ri(offsets: &[u32]) -> Vec<u8> {
    let mut r = Vec::new();
    r.extend_from_slice(b"ri");
    r.extend_from_slice(&(offsets.len() as u16).to_le_bytes());
    for off in offsets {
        r.extend_from_slice(&off.to_le_bytes());
    }
    r
}

fn values_list(offsets: &[u32]) -> Vec<u8> {
    let mut r = Vec::new();
    for off in offsets {
        r.extend_from_slice(&off.to_le_bytes());
    }
    r
}

/// Builds the test hive used across the tests, mirroring the layout the
/// suite expects: `data-test`, `big-data-test`, `character-encoding-test`,
/// `subkey-test` (512 subkeys under an Index Root), and `subpath-test`.
fn testhive_vec() -> Vec<u8> {
    let mut b = HiveBuilder::new();

    // --- data-test ---
    let sz_data = b.add_cell(&utf16le("sz-test"));
    let sz_nul_data = b.add_cell(&utf16le("sz-test\0"));
    let expand_data = b.add_cell(&utf16le("sz-test"));
    let multi_data = b.add_cell(&utf16le("multi-sz-test\0line2\0\0"));
    let dword_data = b.add_cell(&42u32.to_le_bytes());
    let dword_be_data = b.add_cell(&42u32.to_le_bytes());
    let qword_data = b.add_cell(&u64::MAX.to_le_bytes());
    let binary_data = b.add_cell(&[1, 2, 3, 4, 5]);

    let v_sz = b.add_cell(&vk("reg-sz", 1, 14, sz_data));
    let v_sz_nul = b.add_cell(&vk("reg-sz-with-terminating-nul", 1, 16, sz_nul_data));
    let v_expand = b.add_cell(&vk("reg-expand-sz", 2, 14, expand_data));
    let v_multi = b.add_cell(&vk("reg-multi-sz", 7, 42, multi_data));
    let v_dword = b.add_cell(&vk("dword", 4, 4, dword_data));
    let v_dword_be = b.add_cell(&vk("dword-big-endian", 5, 4, dword_be_data));
    let v_qword = b.add_cell(&vk("qword", 11, 8, qword_data));
    let v_binary = b.add_cell(&vk("binary", 3, 5, binary_data));

    let data_values = b.add_cell(&values_list(&[
        v_sz, v_sz_nul, v_expand, v_multi, v_dword, v_dword_be, v_qword, v_binary,
    ]));
    let class_cell = b.add_cell(&utf16le("TestClass"));
    let mut data_nk = nk_ascii("data-test", NO_OFFSET, 0, data_values, 8);
    set_class(&mut data_nk, class_cell, 18);
    let data_test = b.add_cell(&data_nk);

    // --- big-data-test ---
    let a_data = b.add_cell(&vec![b'A'; 16343]);
    let b_data = b.add_cell(&vec![b'B'; 16344]);
    let c_seg1 = b.add_cell(&vec![b'C'; 16344]);
    let c_seg2 = b.add_cell(&vec![b'C'; 16344]); // last segment yields 1 byte
    let c_list = b.add_cell(&values_list(&[c_seg1, c_seg2]));
    let mut db = Vec::new();
    db.extend_from_slice(b"db");
    db.extend_from_slice(&2u16.to_le_bytes());
    db.extend_from_slice(&c_list.to_le_bytes());
    let c_db = b.add_cell(&db);

    let v_a = b.add_cell(&vk("A", 3, 16343, a_data));
    let v_b = b.add_cell(&vk("B", 3, 16344, b_data));
    let v_c = b.add_cell(&vk("C", 3, 16345, c_db));
    let big_values = b.add_cell(&values_list(&[v_a, v_b, v_c]));
    let big_data_test = b.add_cell(&nk_ascii("big-data-test", NO_OFFSET, 0, big_values, 3));

    // --- character-encoding-test ---
    // Sorted by case-folded name: "äöü" (fold Ä=0xC4) < "Ａ" (U+FF21)
    // < "𐐐" (U+10410) < "𐐸" (U+10438, no fold outside the BMP).
    let enc_umlaut = b.add_cell(&nk(Some("äöü"), None, NO_OFFSET, 0, NO_OFFSET, 0));
    let enc_fullwidth = b.add_cell(&nk(None, Some("Ａ"), NO_OFFSET, 0, NO_OFFSET, 0));
    let enc_deseret_upper = b.add_cell(&nk(None, Some("𐐐"), NO_OFFSET, 0, NO_OFFSET, 0));
    let enc_deseret_lower = b.add_cell(&nk(None, Some("𐐸"), NO_OFFSET, 0, NO_OFFSET, 0));
    let enc_leaf = b.add_cell(&lh(&[enc_umlaut, enc_fullwidth, enc_deseret_upper, enc_deseret_lower]));
    let enc_test = b.add_cell(&nk_ascii("character-encoding-test", enc_leaf, 4, NO_OFFSET, 0));

    // --- subkey-test: 512 subkeys under an Index Root of 8 Leafs ---
    let mut names: Vec<String> = (0..512).map(|i| format!("key{}", i)).collect();
    names.sort_unstable();
    let mut key_offsets = Vec::new();
    for name in &names {
        key_offsets.push(b.add_cell(&nk_ascii(name, NO_OFFSET, 0, NO_OFFSET, 0)));
    }
    let mut leaf_offsets = Vec::new();
    for chunk in key_offsets.chunks(64) {
        leaf_offsets.push(b.add_cell(&lh(chunk)));
    }
    let subkey_root = b.add_cell(&ri(&leaf_offsets));
    let subkey_test = b.add_cell(&nk_ascii("subkey-test", subkey_root, 512, NO_OFFSET, 0));

    // --- subpath-test ---
    let no_subkeys = b.add_cell(&nk_ascii("no-subkeys", NO_OFFSET, 0, NO_OFFSET, 0));
    let single_child = b.add_cell(&nk_ascii("subkey", NO_OFFSET, 0, NO_OFFSET, 0));
    let single_leaf = b.add_cell(&lh(&[single_child]));
    let single = b.add_cell(&nk_ascii("with-single-level-subkey", single_leaf, 1, NO_OFFSET, 0));
    let sub2 = b.add_cell(&nk_ascii("subkey2", NO_OFFSET, 0, NO_OFFSET, 0));
    let sub2_leaf = b.add_cell(&lh(&[sub2]));
    let sub1 = b.add_cell(&nk_ascii("subkey1", sub2_leaf, 1, NO_OFFSET, 0));
    let sub1_leaf = b.add_cell(&lh(&[sub1]));
    let two_levels = b.add_cell(&nk_ascii("with-two-levels-of-subkeys", sub1_leaf, 1, NO_OFFSET, 0));
    let subpath_leaf = b.add_cell(&lh(&[no_subkeys, single, two_levels]));
    let subpath_test = b.add_cell(&nk_ascii("subpath-test", subpath_leaf, 3, NO_OFFSET, 0));

    // --- root ---
    let root_leaf = b.add_cell(&lh(&[
        big_data_test,
        enc_test,
        data_test,
        subkey_test,
        subpath_test,
    ]));
    let root = b.add_cell(&nk_ascii("ROOT", root_leaf, 5, NO_OFFSET, 0));

    b.finish(root)
}

// ---------------------------------------------------------------------------
// Tests carried over from the original suite.
// ---------------------------------------------------------------------------

#[test]
fn test_big_data() {
    let testhive = testhive_vec();
    let hive = Hive::new(testhive.as_ref()).unwrap();
    let root_key_node = hive.root_key_node().unwrap();
    let key_node = root_key_node.subkey("big-data-test").unwrap().unwrap();

    // Key Value "A" should be filled with 16343 'A' bytes and still fit into a cell.
    let key_value = key_node.value("A").unwrap().unwrap();
    assert_eq!(key_value.data_type().unwrap(), KeyValueDataType::RegBinary);
    assert_eq!(key_value.data_size(), 16343);

    let expected_data = vec![b'A'; 16343];
    let key_value_data = key_value.data().unwrap();
    assert!(matches!(key_value_data, KeyValueData::Small(_)));
    assert_eq!(key_value_data.into_vec().unwrap(), expected_data);

    // Key Value "B" should be filled with 16344 'B' bytes and still fit into a cell.
    let key_value = key_node.value("B").unwrap().unwrap();
    assert_eq!(key_value.data_type().unwrap(), KeyValueDataType::RegBinary);
    assert_eq!(key_value.data_size(), 16344);

    let expected_data = vec![b'B'; 16344];
    let key_value_data = key_value.data().unwrap();
    assert!(matches!(key_value_data, KeyValueData::Small(_)));
    assert_eq!(key_value_data.into_vec().unwrap(), expected_data);

    // Key Value "C" should be filled with 16345 'C' bytes and require a Big Data structure.
    let key_value = key_node.value("C").unwrap().unwrap();
    assert_eq!(key_value.data_type().unwrap(), KeyValueDataType::RegBinary);
    assert_eq!(key_value.data_size(), 16345);

    let expected_data = vec![b'C'; 16345];
    let key_value_data = key_value.data().unwrap();
    assert!(matches!(key_value_data, KeyValueData::Big(_)));
    assert_eq!(key_value_data.into_vec().unwrap(), expected_data);
}

#[test]
fn test_clear_volatile_subkeys() {
    // clear_volatile_subkeys traverses all subkeys, so this test just checks
    // that it doesn't crash during that process.
    let mut testhive = testhive_vec();
    Hive::new(testhive.as_ref()).unwrap();
    assert!(Hive::clear_volatile_subkeys(&mut testhive).is_ok());
}

#[test]
fn test_character_encoding() {
    let testhive = testhive_vec();
    let hive = Hive::new(testhive.as_ref()).unwrap();
    let root_key_node = hive.root_key_node().unwrap();
    let key_node = root_key_node
        .subkey("character-encoding-test")
        .unwrap()
        .unwrap();

    // Prove that Latin1 characters are always stored with 1 byte per character.
    let subkey = key_node.subkey("äöü").unwrap().unwrap();
    assert!(matches!(
        subkey.name().unwrap(),
        NtHiveNameString::Latin1(&[0xe4, 0xf6, 0xfc])
    ));

    // Prove that all characters of the Unicode Basic Multilingual Plane are
    // compared case-insensitively by trying to find both
    // "Full-Width Uppercase A" (U+FF21) and "Full-Width Lowercase A" (U+FF41),
    // and ending up with the same subkeys.
    let subkey1 = key_node.subkey("Ａ").unwrap().unwrap();
    let subkey2 = key_node.subkey("ａ").unwrap().unwrap();
    assert!(subkey1 == subkey2);

    // Prove that this isn't the case outside the Unicode Basic Multilingual
    // Plane by trying the same for "Deseret Uppercase H" (U+10410) and
    // "Deseret Lowercase H" (U+10438).
    let subkey1 = key_node.subkey("𐐐").unwrap().unwrap();
    let subkey2 = key_node.subkey("𐐸").unwrap().unwrap();
    assert!(subkey1 != subkey2);
}

#[test]
fn test_subkey() {
    // Prove that our binary search algorithm finds every subkey of "subkey-test".
    let testhive = testhive_vec();
    let hive = Hive::new(testhive.as_ref()).unwrap();
    let root_key_node = hive.root_key_node().unwrap();
    let key_node = root_key_node.subkey("subkey-test").unwrap().unwrap();

    for i in 0..512 {
        let subkey_name = format!("key{}", i);
        assert!(
            matches!(key_node.subkey(&subkey_name), Some(Ok(_))),
            "Could not find subkey \"{}\"",
            subkey_name
        );
    }
}

#[test]
fn test_subkeys() {
    // Keep in mind that subkeys in the hive are sorted like key0, key1, key10, key11, ...
    // We can create the same order by adding them to a vector and sorting that vector.
    let mut key_names = Vec::with_capacity(512);
    for i in 0..512 {
        key_names.push(format!("key{}", i));
    }

    key_names.sort_unstable();

    // Iterate through subkeys of "subkey-test" and prove that they are sorted
    // just like our vector.
    let testhive = testhive_vec();
    let hive = Hive::new(testhive.as_ref()).unwrap();
    let root_key_node = hive.root_key_node().unwrap();
    let key_node = root_key_node.subkey("subkey-test").unwrap().unwrap();

    let mut subkeys = key_node.subkeys().unwrap().unwrap();

    let mut i = 0;
    while let Some(subkey) = subkeys.next() {
        let subkey = subkey.unwrap();
        assert_eq!(subkey.name().unwrap(), key_names[i].as_str());
        i += 1;
    }
    assert_eq!(i, 512);
}

#[test]
fn test_subpath() {
    let testhive = testhive_vec();
    let hive = Hive::new(testhive.as_ref()).unwrap();
    let root_key_node = hive.root_key_node().unwrap();
    let key_node = root_key_node.subkey("subpath-test").unwrap().unwrap();

    assert!(matches!(key_node.subpath("no-subkeys"), Some(Ok(_))));
    assert!(matches!(key_node.subpath("\\no-subkeys"), Some(Ok(_))));
    assert!(matches!(key_node.subpath("no-subkeys\\"), Some(Ok(_))));
    assert!(matches!(key_node.subpath("\\no-subkeys\\"), Some(Ok(_))));
    assert!(matches!(key_node.subpath("no-subkeys\\non-existing"), None));

    assert!(matches!(
        key_node.subpath("with-single-level-subkey"),
        Some(Ok(_))
    ));
    assert!(matches!(
        key_node.subpath("with-single-level-subkey\\subkey"),
        Some(Ok(_))
    ));
    assert!(matches!(
        key_node.subpath("with-single-level-subkey\\\\subkey"),
        Some(Ok(_))
    ));
    assert!(matches!(
        key_node.subpath("with-single-level-subkey\\\\subkey\\"),
        Some(Ok(_))
    ));
    assert!(matches!(
        key_node.subpath("with-single-level-subkey\\subkey\\non-existing-too"),
        None
    ));

    assert!(matches!(
        key_node.subpath("with-two-levels-of-subkeys\\subkey1\\subkey2"),
        Some(Ok(_))
    ));
    assert!(matches!(
        key_node.subpath("with-two-levels-of-subkeys\\subkey1\\\\subkey2"),
        Some(Ok(_))
    ));

    assert!(matches!(key_node.subpath("non-existing"), None));
    assert!(matches!(key_node.subpath("non-existing\\sub"), None));
}

#[test]
fn test_data() {
    // Get key values of all data types we support and prove that we
    // correctly read their data.
    let testhive = testhive_vec();
    let hive = Hive::new(testhive.as_ref()).unwrap();
    let root_key_node = hive.root_key_node().unwrap();
    let key_node = root_key_node.subkey("data-test").unwrap().unwrap();

    let key_value = key_node.value("reg-sz").unwrap().unwrap();
    assert_eq!(key_value.data_type().unwrap(), KeyValueDataType::RegSZ);
    assert_eq!(key_value.string_data().unwrap(), "sz-test");

    let key_value = key_node
        .value("reg-sz-with-terminating-nul")
        .unwrap()
        .unwrap();
    assert_eq!(key_value.data_type().unwrap(), KeyValueDataType::RegSZ);
    assert_eq!(key_value.string_data().unwrap(), "sz-test");

    let key_value = key_node.value("reg-expand-sz").unwrap().unwrap();
    assert_eq!(
        key_value.data_type().unwrap(),
        KeyValueDataType::RegExpandSZ
    );
    assert_eq!(key_value.string_data().unwrap(), "sz-test");

    let key_value = key_node.value("reg-multi-sz").unwrap().unwrap();
    assert_eq!(key_value.data_type().unwrap(), KeyValueDataType::RegMultiSZ);
    assert_eq!(
        key_value.multi_string_data().unwrap(),
        vec!["multi-sz-test", "line2"]
    );

    let key_value = key_node.value("dword").unwrap().unwrap();
    assert_eq!(key_value.data_type().unwrap(), KeyValueDataType::RegDWord);
    assert_eq!(key_value.dword_data().unwrap(), 42);

    // The builder stored the same bytes representing '42' in little-endian
    // for the big-endian case. Thus, we must get a numeric value of
    // 42 << 24 = 704643072 after interpreting the same bytes as a big-endian
    // value.
    let key_value = key_node.value("dword-big-endian").unwrap().unwrap();
    assert_eq!(
        key_value.data_type().unwrap(),
        KeyValueDataType::RegDWordBigEndian
    );
    assert_eq!(key_value.dword_data().unwrap(), 42 << 24);

    let key_value = key_node.value("qword").unwrap().unwrap();
    assert_eq!(key_value.data_type().unwrap(), KeyValueDataType::RegQWord);
    assert_eq!(key_value.qword_data().unwrap(), u64::MAX);

    let key_value = key_node.value("binary").unwrap().unwrap();
    let key_value_data = key_value.data().unwrap();
    assert_eq!(key_value.data_type().unwrap(), KeyValueDataType::RegBinary);
    assert!(matches!(key_value_data, KeyValueData::Small(_)));
    assert_eq!(key_value_data.into_vec().unwrap(), vec![1, 2, 3, 4, 5]);
}

// ---------------------------------------------------------------------------
// Additional scenario tests for the library's stated behavior.
// ---------------------------------------------------------------------------

#[test]
fn test_clear_volatile_subkeys_idempotent() {
    // Running the clearing pass twice yields the same bytes as running it
    // once.
    let mut once = testhive_vec();
    Hive::clear_volatile_subkeys(&mut once).unwrap();
    let mut twice = once.clone();
    Hive::clear_volatile_subkeys(&mut twice).unwrap();
    assert_eq!(once, twice);
}

#[test]
fn test_clear_volatile_subkeys_locality() {
    // Outside volatile-subkey-count fields of nk cells, the buffer is
    // unchanged: restoring the nonzero counter the builder wrote recovers
    // the original image bit for bit.
    let original = testhive_vec();
    let mut cleared = original.clone();
    Hive::clear_volatile_subkeys(&mut cleared).unwrap();
    assert_ne!(original, cleared);

    let mut restored = cleared.clone();
    let mut changed = 0;
    for i in 0..original.len() {
        if restored[i] != original[i] {
            assert_eq!(restored[i], 0, "changed byte not zeroed at {}", i);
            restored[i] = original[i];
            changed += 1;
        }
    }
    assert_eq!(restored, original);
    // Every changed position must lie in a volatile-subkey-count field: the
    // builder writes 7 there, so each cleared node accounts for exactly one
    // changed byte.
    assert!(changed > 0);
}

#[test]
fn test_subkey_not_found() {
    // A name that does not exist yields "not found", never an error.
    let testhive = testhive_vec();
    let hive = Hive::new(testhive.as_ref()).unwrap();
    let root_key_node = hive.root_key_node().unwrap();
    let key_node = root_key_node.subkey("subkey-test").unwrap().unwrap();
    assert!(key_node.subkey("key512").is_none());
    assert!(key_node.subkey("aaaaaa").is_none());
    assert!(key_node.subkey("zzzzzz").is_none());
    let data_test = root_key_node.subkey("data-test").unwrap().unwrap();
    assert!(data_test.subkey("anything").is_none());
    assert!(data_test.value("no-such-value").is_none());
}

#[test]
fn test_version() {
    let testhive = testhive_vec();
    let hive = Hive::new(testhive.as_ref()).unwrap();
    assert_eq!(hive.major_version(), 1);
    assert_eq!(hive.minor_version(), 5);
}

#[test]
fn test_validation_errors() {
    let good = testhive_vec();

    // Too short for a base block.
    assert!(matches!(
        Hive::new(&good[..100]),
        Err(NtHiveError::InvalidHeaderSize { .. })
    ));

    // Broken four-byte signature.
    let mut bad = good.clone();
    bad[0] = b'X';
    assert!(matches!(
        Hive::new(bad.as_ref()),
        Err(NtHiveError::InvalidFourByteSignature { .. })
    ));

    // Mismatching sequence numbers.
    let mut bad = good.clone();
    bad[4] = 99;
    assert!(matches!(
        Hive::new(bad.as_ref()),
        Err(NtHiveError::SequenceNumberMismatch { .. })
    ));

    // Unsupported version.
    let mut bad = good.clone();
    bad[24] = 2;
    write_checksum(&mut bad[..4096]);
    bad[4..8].copy_from_slice(&1u32.to_le_bytes());
    let mut fixed = bad.clone();
    write_checksum(&mut fixed[..4096]);
    assert!(matches!(
        Hive::new(fixed.as_ref()),
        Err(NtHiveError::UnsupportedVersion { minor: 2, .. })
    ));

    // Unsupported file type.
    let mut bad = good.clone();
    bad[28] = 9;
    write_checksum(&mut bad[..4096]);
    assert!(matches!(
        Hive::new(bad.as_ref()),
        Err(NtHiveError::UnsupportedFileType { actual: 9, .. })
    ));

    // Unsupported file format.
    let mut bad = good.clone();
    bad[32] = 9;
    write_checksum(&mut bad[..4096]);
    assert!(matches!(
        Hive::new(bad.as_ref()),
        Err(NtHiveError::UnsupportedFileFormat { actual: 9, .. })
    ));

    // Unsupported clustering factor.
    let mut bad = good.clone();
    bad[44] = 3;
    write_checksum(&mut bad[..4096]);
    assert!(matches!(
        Hive::new(bad.as_ref()),
        Err(NtHiveError::UnsupportedClusteringFactor { actual: 3, .. })
    ));

    // Broken checksum.
    let mut bad = good.clone();
    bad[508] ^= 0xFF;
    assert!(matches!(
        Hive::new(bad.as_ref()),
        Err(NtHiveError::InvalidChecksum { .. })
    ));

    // A hive that fails validation still opens without validation.
    let mut bad = good.clone();
    bad[508] ^= 0xFF;
    let hive = Hive::without_validation(bad.as_ref()).unwrap();
    assert!(hive.validate().is_err());
    assert!(hive.root_key_node().is_ok());
}

#[test]
fn test_checksum_leniency() {
    // Force the raw XOR of the base block to zero by adjusting an unused
    // file-name word, then check that both the raw stored value (0) and the
    // normalized one (1) are accepted on read, while anything else is not.
    let mut image = testhive_vec();
    let mut xor = 0u32;
    for word in image[..508].chunks(4) {
        xor ^= u32::from_le_bytes(word.try_into().unwrap());
    }
    let old_word = u32::from_le_bytes(image[48..52].try_into().unwrap());
    image[48..52].copy_from_slice(&(old_word ^ xor).to_le_bytes());

    let mut raw = image.clone();
    raw[508..512].copy_from_slice(&0u32.to_le_bytes());
    assert!(Hive::new(raw.as_ref()).is_ok());

    let mut normalized = image.clone();
    normalized[508..512].copy_from_slice(&1u32.to_le_bytes());
    assert!(Hive::new(normalized.as_ref()).is_ok());

    let mut wrong = image.clone();
    wrong[508..512].copy_from_slice(&2u32.to_le_bytes());
    assert!(matches!(
        Hive::new(wrong.as_ref()),
        Err(NtHiveError::InvalidChecksum { .. })
    ));
}

#[test]
fn test_cell_errors() {
    // An unallocated (positive-size) root cell is rejected with a distinct
    // error, as are misaligned sizes.
    let good = testhive_vec();
    let hive = Hive::new(good.as_ref()).unwrap();
    let root_offset = u32::from_le_bytes(good[36..40].try_into().unwrap());
    let cell_pos = 4096 + root_offset as usize;

    // Flip the allocated cell's negative size to a positive one.
    let size = i32::from_le_bytes(good[cell_pos..cell_pos + 4].try_into().unwrap());
    drop(hive);
    let mut bad = good.clone();
    bad[cell_pos..cell_pos + 4].copy_from_slice(&(-size).to_le_bytes());
    let hive = Hive::without_validation(bad.as_ref()).unwrap();
    assert!(matches!(
        hive.root_key_node(),
        Err(NtHiveError::UnallocatedCell { .. })
    ));

    // A size that is not 8-aligned.
    let mut bad = good.clone();
    bad[cell_pos..cell_pos + 4].copy_from_slice(&(size - 1).to_le_bytes());
    let hive = Hive::without_validation(bad.as_ref()).unwrap();
    assert!(matches!(
        hive.root_key_node(),
        Err(NtHiveError::InvalidSizeFieldAlignment { .. })
    ));

    // A cell that extends past the cell area.
    let mut bad = good.clone();
    bad[cell_pos..cell_pos + 4].copy_from_slice(&(-0x7FFF_FFF8i32).to_le_bytes());
    let hive = Hive::without_validation(bad.as_ref()).unwrap();
    assert!(matches!(
        hive.root_key_node(),
        Err(NtHiveError::InvalidSizeField { .. })
    ));
}

#[test]
fn test_data_type_errors() {
    let testhive = testhive_vec();
    let hive = Hive::new(testhive.as_ref()).unwrap();
    let root_key_node = hive.root_key_node().unwrap();
    let key_node = root_key_node.subkey("data-test").unwrap().unwrap();

    // Asking for string data of a DWORD value is a type error.
    let key_value = key_node.value("dword").unwrap().unwrap();
    assert!(matches!(
        key_value.string_data(),
        Err(NtHiveError::InvalidKeyValueDataType { .. })
    ));
    assert!(matches!(
        key_value.multi_string_data(),
        Err(NtHiveError::InvalidKeyValueDataType { .. })
    ));
    // The size check runs before the type check: a four-byte value cannot
    // be read as a QWORD.
    assert!(matches!(
        key_value.qword_data(),
        Err(NtHiveError::InvalidDataSize { .. })
    ));

    // A DWORD-sized read of an 8-byte value is a size error.
    let key_value = key_node.value("qword").unwrap().unwrap();
    assert!(matches!(
        key_value.dword_data(),
        Err(NtHiveError::InvalidDataSize { .. })
    ));
}

#[test]
fn test_root_subkeys_order() {
    // Leaf containers keep their items sorted by case-folded name; iterating
    // the root returns its subkeys in exactly that stored order.
    let testhive = testhive_vec();
    let hive = Hive::new(testhive.as_ref()).unwrap();
    let root_key_node = hive.root_key_node().unwrap();
    let mut subkeys = root_key_node.subkeys().unwrap().unwrap();
    let mut names = Vec::new();
    while let Some(subkey) = subkeys.next() {
        names.push(subkey.unwrap().name().unwrap().to_string_lossy());
    }
    assert_eq!(
        names,
        vec![
            "big-data-test",
            "character-encoding-test",
            "data-test",
            "subkey-test",
            "subpath-test"
        ]
    );
}

#[test]
fn test_class_name() {
    let testhive = testhive_vec();
    let hive = Hive::new(testhive.as_ref()).unwrap();
    let root_key_node = hive.root_key_node().unwrap();

    let with_class = root_key_node.subkey("data-test").unwrap().unwrap();
    let class_name = with_class.class_name().unwrap().unwrap();
    assert_eq!(class_name.to_string_lossy(), "TestClass");

    let without_class = root_key_node.subkey("subkey-test").unwrap().unwrap();
    assert!(without_class.class_name().is_none());
}

#[test]
fn test_values_iteration() {
    let testhive = testhive_vec();
    let hive = Hive::new(testhive.as_ref()).unwrap();
    let root_key_node = hive.root_key_node().unwrap();
    let key_node = root_key_node.subkey("data-test").unwrap().unwrap();

    let mut values = key_node.values().unwrap().unwrap();
    assert_eq!(values.len(), 8);
    let mut names = Vec::new();
    while let Some(value) = values.next() {
        names.push(value.unwrap().name().unwrap().to_string_lossy());
    }
    assert_eq!(
        names,
        vec![
            "reg-sz",
            "reg-sz-with-terminating-nul",
            "reg-expand-sz",
            "reg-multi-sz",
            "dword",
            "dword-big-endian",
            "qword",
            "binary"
        ]
    );

    // A key without values yields no iterator.
    let no_values = root_key_node.subkey("subkey-test").unwrap().unwrap();
    assert!(no_values.values().is_none());
}
