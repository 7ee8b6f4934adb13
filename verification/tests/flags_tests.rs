use fsedump::flags::{
    bits_to_str, flag_bit_of_name, flag_separator, parse_bits, vocab_count, vocab_table_entry,
    FlagCodec, Vocab,
};

fn norm_entries() -> Vec<(&'static str, u32)> {
    let mut v = Vec::new();
    for i in 0..vocab_count(Vocab::Norm) {
        v.push(vocab_table_entry(Vocab::Norm, i));
    }
    v
}

fn alt_entries() -> Vec<(&'static str, u32)> {
    let mut v = Vec::new();
    for i in 0..vocab_count(Vocab::Alt) {
        v.push(vocab_table_entry(Vocab::Alt, i));
    }
    v
}

#[test]
fn simple_bits_to_strs() {
    for (name, flag) in norm_entries().iter() {
        assert_eq!(bits_to_str(*flag).norm, *name);
        assert_eq!(bits_to_str(*flag).norm, *name);
    }
    for (name, flag) in alt_entries().iter() {
        assert_eq!(bits_to_str(*flag).alt, *name);
        assert_eq!(bits_to_str(*flag).alt, *name);
    }
}

#[test]
fn complex_bits_to_strs() {
    let (combo_str, combo_num) = norm_entries().iter().take(3).fold(
        (String::with_capacity(500), 0u32),
        |(mut string, flag), (new_str, new_flag)| {
            if !string.is_empty() {
                string.push_str(flag_separator());
            }
            string.push_str(new_str);
            (string, flag | new_flag)
        },
    );
    assert_eq!(bits_to_str(combo_num).norm, combo_str);
}

#[test]
fn simple_parse_bits() {
    for (name, flag) in norm_entries().iter() {
        assert_eq!(parse_bits(*flag).norm, *name);
        assert_eq!(parse_bits(*flag).norm, *name);

        assert_eq!(parse_bits(*flag).norm.as_str(), *name);
        assert_eq!(parse_bits(*flag).norm.as_str(), *name);
    }
}

#[test]
fn complex_parse_bits() {
    let (combo_str, combo_num) = norm_entries().iter().take(3).fold(
        (String::with_capacity(500), 0u32),
        |(mut string, flag), (new_str, new_flag)| {
            if !string.is_empty() {
                string.push_str(flag_separator());
            }
            string.push_str(new_str);
            (string, flag | new_flag)
        },
    );

    assert_eq!(parse_bits(combo_num).norm, combo_str);
    assert_eq!(parse_bits(combo_num).norm, combo_str);
}

#[test]
fn zero_renders_empty_in_both_vocabularies() {
    let f = parse_bits(0);
    assert_eq!(f.norm, "");
    assert_eq!(f.alt, "");
}

#[test]
fn combination_renders_in_table_order() {
    // Modified (late in the table) together with FolderEvent (first):
    // table-declaration order wins, no matter how the bits were assembled.
    let bits = 0x1000_0000u32 | 0x0000_0001u32;
    assert_eq!(bits_to_str(bits).norm, "FolderEvent | Modified");
    let bits_other_way = 0x0000_0001u32 | 0x1000_0000u32;
    assert_eq!(bits_to_str(bits_other_way).norm, "FolderEvent | Modified");
}

#[test]
fn codec_render_is_cached_and_stable() {
    let mut codec = FlagCodec::new();
    let first = codec.render(0x0100_0001);
    let second = codec.render(0x0100_0001);
    assert_eq!(first.norm, second.norm);
    assert_eq!(first.alt, second.alt);
    assert_eq!(first.norm, "FolderEvent | Created");
    assert_eq!(first.norm, parse_bits(0x0100_0001).norm);
}

#[test]
fn flag_names_resolve_to_declared_bits() {
    assert_eq!(flag_bit_of_name("Modified"), Some(0x1000_0000));
    assert_eq!(flag_bit_of_name("FolderEvent"), Some(0x0000_0001));
    assert_eq!(flag_bit_of_name("FileEvent"), Some(0x0000_8000));
    assert_eq!(flag_bit_of_name("NoSuchFlag"), None);
    assert_eq!(flag_bit_of_name(""), None);
}
