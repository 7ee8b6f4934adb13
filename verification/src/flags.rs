//! Rendering of event-flag bitmasks as human-readable text.
//!
//! A 32-bit bitmask is turned into the names of the flags that are set,
//! joined by a fixed separator, in the fixed declaration order of the flag
//! table.  Two vocabularies exist: the primary one and an alternate one used
//! by another tool's convention.  A codec memoizes rendered strings so the
//! cost of rendering is paid once per distinct bitmask.
use vstd::prelude::*;

verus! {

use vstd::string::StringExecFns;
use std::collections::HashMap;

broadcast use vstd::std_specs::hash::group_hash_axioms;

/// The separator placed between flag names when a bitmask is rendered.
pub fn flag_separator() -> (r: &'static str)
    ensures
        r@ == " | "@,
{
    " | "
}

/// Which flag vocabulary a rendering is made against.
#[derive(Clone, Copy, PartialEq, Eq, Structural)]
pub enum Vocab {
    Norm,
    Alt,
}

/// Number of entries in a vocabulary's flag table.
pub open spec fn vocab_len(v: Vocab) -> int {
    match v {
        Vocab::Norm => 21,
        Vocab::Alt => 22,
    }
}

/// The flag table: for index `i`, the declared name and the bit value.
pub open spec fn vocab_entry(v: Vocab, i: int) -> (Seq<char>, u32) {
    match v {
        Vocab::Norm => {
            if i == 0 { ("FolderEvent"@, 0x0000_0001u32) }
            else if i == 1 { ("Mount"@, 0x0000_0002u32) }
            else if i == 2 { ("Unmount"@, 0x0000_0004u32) }
            else if i == 3 { ("EndOfTransaction"@, 0x0000_0020u32) }
            else if i == 4 { ("LastHardLinkRemoved"@, 0x0000_0800u32) }
            else if i == 5 { ("HardLink"@, 0x0000_1000u32) }
            else if i == 6 { ("SymbolicLink"@, 0x0000_4000u32) }
            else if i == 7 { ("FileEvent"@, 0x0000_8000u32) }
            else if i == 8 { ("PermissionChange"@, 0x0001_0000u32) }
            else if i == 9 { ("ExtendedAttrModified"@, 0x0002_0000u32) }
            else if i == 10 { ("ExtendedAttrRemoved"@, 0x0004_0000u32) }
            else if i == 11 { ("DocumentRevisioning"@, 0x0010_0000u32) }
            else if i == 12 { ("ItemCloned"@, 0x0040_0000u32) }
            else if i == 13 { ("Created"@, 0x0100_0000u32) }
            else if i == 14 { ("Removed"@, 0x0200_0000u32) }
            else if i == 15 { ("InodeMetaMod"@, 0x0400_0000u32) }
            else if i == 16 { ("Renamed"@, 0x0800_0000u32) }
            else if i == 17 { ("Modified"@, 0x1000_0000u32) }
            else if i == 18 { ("Exchange"@, 0x2000_0000u32) }
            else if i == 19 { ("FinderInfoMod"@, 0x4000_0000u32) }
            else { ("FolderCreated"@, 0x8000_0000u32) }
        },
        Vocab::Alt => {
            if i == 0 { ("Created"@, 0x0000_0001u32) }
            else if i == 1 { ("Removed"@, 0x0000_0002u32) }
            else if i == 2 { ("InodeMetaMod"@, 0x0000_0004u32) }
            else if i == 3 { ("RenamedOrMoved"@, 0x0000_0008u32) }
            else if i == 4 { ("Modified"@, 0x0000_0010u32) }
            else if i == 5 { ("Exchange"@, 0x0000_0020u32) }
            else if i == 6 { ("FinderInfoMod"@, 0x0000_0040u32) }
            else if i == 7 { ("FolderCreated"@, 0x0000_0080u32) }
            else if i == 8 { ("PermissionChange"@, 0x0000_0100u32) }
            else if i == 9 { ("XAttrModified"@, 0x0000_0200u32) }
            else if i == 10 { ("XAttrRemoved"@, 0x0000_0400u32) }
            else if i == 11 { ("0x00000800"@, 0x0000_0800u32) }
            else if i == 12 { ("DocumentRevision"@, 0x0000_1000u32) }
            else if i == 13 { ("ItemCloned"@, 0x0000_4000u32) }
            else if i == 14 { ("LastHardLinkRemoved"@, 0x0008_0000u32) }
            else if i == 15 { ("HardLink"@, 0x0010_0000u32) }
            else if i == 16 { ("SymbolicLink"@, 0x0040_0000u32) }
            else if i == 17 { ("FileEvent"@, 0x0080_0000u32) }
            else if i == 18 { ("FolderEvent"@, 0x0100_0000u32) }
            else if i == 19 { ("Mount"@, 0x0200_0000u32) }
            else if i == 20 { ("Unmount"@, 0x0400_0000u32) }
            else { ("EndOfTransaction"@, 0x2000_0000u32) }
        },
    }
}

/// Text rendered for `bits` from the first `n` table entries, in table order,
/// joined by the separator.
pub open spec fn render_upto(v: Vocab, bits: u32, n: int) -> Seq<char>
    decreases n,
{
    if n <= 0 {
        Seq::empty()
    } else {
        let prev = render_upto(v, bits, n - 1);
        let name = vocab_entry(v, n - 1).0;
        let mask = vocab_entry(v, n - 1).1;
        if bits & mask == mask {
            if prev.len() == 0 {
                name
            } else {
                prev + " | "@ + name
            }
        } else {
            prev
        }
    }
}

/// The full rendering of `bits` against vocabulary `v`.
pub open spec fn spec_render(v: Vocab, bits: u32) -> Seq<char> {
    render_upto(v, bits, vocab_len(v))
}

/// How many entries the vocabulary's table has.
pub fn vocab_count(v: Vocab) -> (n: usize)
    ensures
        n as int == vocab_len(v),
{
    match v {
        Vocab::Norm => 21,
        Vocab::Alt => 22,
    }
}

/// Table entry `i` of vocabulary `v`: the declared name and the bit value.
pub fn vocab_table_entry(v: Vocab, i: usize) -> (r: (&'static str, u32))
    requires
        i < vocab_len(v),
    ensures
        r.0@ == vocab_entry(v, i as int).0,
        r.1 == vocab_entry(v, i as int).1,
{
    match v {
        Vocab::Norm => {
            if i == 0 { ("FolderEvent", 0x0000_0001) }
            else if i == 1 { ("Mount", 0x0000_0002) }
            else if i == 2 { ("Unmount", 0x0000_0004) }
            else if i == 3 { ("EndOfTransaction", 0x0000_0020) }
            else if i == 4 { ("LastHardLinkRemoved", 0x0000_0800) }
            else if i == 5 { ("HardLink", 0x0000_1000) }
            else if i == 6 { ("SymbolicLink", 0x0000_4000) }
            else if i == 7 { ("FileEvent", 0x0000_8000) }
            else if i == 8 { ("PermissionChange", 0x0001_0000) }
            else if i == 9 { ("ExtendedAttrModified", 0x0002_0000) }
            else if i == 10 { ("ExtendedAttrRemoved", 0x0004_0000) }
            else if i == 11 { ("DocumentRevisioning", 0x0010_0000) }
            else if i == 12 { ("ItemCloned", 0x0040_0000) }
            else if i == 13 { ("Created", 0x0100_0000) }
            else if i == 14 { ("Removed", 0x0200_0000) }
            else if i == 15 { ("InodeMetaMod", 0x0400_0000) }
            else if i == 16 { ("Renamed", 0x0800_0000) }
            else if i == 17 { ("Modified", 0x1000_0000) }
            else if i == 18 { ("Exchange", 0x2000_0000) }
            else if i == 19 { ("FinderInfoMod", 0x4000_0000) }
            else { ("FolderCreated", 0x8000_0000) }
        },
        Vocab::Alt => {
            if i == 0 { ("Created", 0x0000_0001) }
            else if i == 1 { ("Removed", 0x0000_0002) }
            else if i == 2 { ("InodeMetaMod", 0x0000_0004) }
            else if i == 3 { ("RenamedOrMoved", 0x0000_0008) }
            else if i == 4 { ("Modified", 0x0000_0010) }
            else if i == 5 { ("Exchange", 0x0000_0020) }
            else if i == 6 { ("FinderInfoMod", 0x0000_0040) }
            else if i == 7 { ("FolderCreated", 0x0000_0080) }
            else if i == 8 { ("PermissionChange", 0x0000_0100) }
            else if i == 9 { ("XAttrModified", 0x0000_0200) }
            else if i == 10 { ("XAttrRemoved", 0x0000_0400) }
            else if i == 11 { ("0x00000800", 0x0000_0800) }
            else if i == 12 { ("DocumentRevision", 0x0000_1000) }
            else if i == 13 { ("ItemCloned", 0x0000_4000) }
            else if i == 14 { ("LastHardLinkRemoved", 0x0008_0000) }
            else if i == 15 { ("HardLink", 0x0010_0000) }
            else if i == 16 { ("SymbolicLink", 0x0040_0000) }
            else if i == 17 { ("FileEvent", 0x0080_0000) }
            else if i == 18 { ("FolderEvent", 0x0100_0000) }
            else if i == 19 { ("Mount", 0x0200_0000) }
            else if i == 20 { ("Unmount", 0x0400_0000) }
            else { ("EndOfTransaction", 0x2000_0000) }
        },
    }
}

/// Render `bits` against one vocabulary: the names of the set flags, in
/// table-declaration order, joined by the separator.
pub fn render_vocab(v: Vocab, bits: u32) -> (r: String)
    ensures
        r@ == spec_render(v, bits),
{
    let mut s = String::new();
    let n = vocab_count(v);
    let mut i: usize = 0;
    while i < n
        invariant
            i <= n,
            n as int == vocab_len(v),
            s@ == render_upto(v, bits, i as int),
        decreases n - i,
    {
        let (name, mask) = vocab_table_entry(v, i);
        if bits & mask == mask {
            if !s.as_str().is_empty() {
                s.append(" | ");
            }
            s.append(name);
        }
        i += 1;
    }
    s
}

/// The rendered text of one bitmask against both vocabularies.
#[derive(Debug)]
pub struct FlagStrs {
    pub norm: String,
    pub alt: String,
}

impl Clone for FlagStrs {
    fn clone(&self) -> (r: Self)
        ensures
            r.norm@ == self.norm@,
            r.alt@ == self.alt@,
    {
        FlagStrs { norm: self.norm.clone(), alt: self.alt.clone() }
    }
}

impl FlagStrs {
    /// Both renderings are exactly the table-order renderings of `bits`.
    pub open spec fn is_render_of(self, bits: u32) -> bool {
        &&& self.norm@ == spec_render(Vocab::Norm, bits)
        &&& self.alt@ == spec_render(Vocab::Alt, bits)
    }
}

/// Turn the flag bits into text: enumerate the table, and for each flag that
/// is set append its name to the rendering built so far.
pub fn bits_to_str(bits: u32) -> (r: FlagStrs)
    ensures
        r.is_render_of(bits),
{
    FlagStrs { norm: render_vocab(Vocab::Norm, bits), alt: render_vocab(Vocab::Alt, bits) }
}

/// Memoizing renderer: every bitmask ever rendered is cached, so the
/// O(#flags) rendering cost is paid once per distinct bitmask.
pub struct FlagCodec {
    cache: HashMap<u32, FlagStrs>,
}

impl FlagCodec {
    /// Every cached entry is the rendering of its key.
    pub closed spec fn wf(self) -> bool {
        forall|k: u32| self.cache@.contains_key(k) ==> (#[trigger] self.cache@[k]).is_render_of(k)
    }

    /// A fresh codec, seeded with the all-clear mask and every single-flag
    /// mask of the primary table.
    pub fn new() -> (c: FlagCodec)
        ensures
            c.wf(),
    {
        let mut cache: HashMap<u32, FlagStrs> = HashMap::new();
        cache.insert(0, bits_to_str(0));
        let n = vocab_count(Vocab::Norm);
        let mut i: usize = 0;
        while i < n
            invariant
                n as int == vocab_len(Vocab::Norm),
                forall|k: u32| cache@.contains_key(k) ==> (#[trigger] cache@[k]).is_render_of(k),
            decreases n - i,
        {
            let (_, mask) = vocab_table_entry(Vocab::Norm, i);
            cache.insert(mask, bits_to_str(mask));
            i += 1;
        }
        FlagCodec { cache }
    }

    /// Render `bits`, from the cache when it has been seen before.
    pub fn render(&mut self, bits: u32) -> (r: FlagStrs)
        requires
            old(self).wf(),
        ensures
            final(self).wf(),
            r.is_render_of(bits),
    {
        match self.cache.get(&bits) {
            Some(f) => f.clone(),
            None => {
                let f = bits_to_str(bits);
                self.cache.insert(bits, f.clone());
                f
            },
        }
    }
}

/// Given the bits, return the rendered flag text for both vocabularies.
pub fn parse_bits(bits: u32) -> (r: FlagStrs)
    ensures
        r.is_render_of(bits),
{
    bits_to_str(bits)
}

/// Whether two string slices hold the same text.
pub fn str_eq(a: &str, b: &str) -> (r: bool)
    ensures
        r == (a@ == b@),
{
    let ao: String = a.to_owned();
    let bo: String = b.to_owned();
    ao == bo
}

/// The bit declared for `name` among the first `n` entries of the primary
/// table, scanning in table order.
pub open spec fn bit_for_name(name: Seq<char>, n: int) -> Option<u32>
    decreases n,
{
    if n <= 0 {
        None
    } else {
        match bit_for_name(name, n - 1) {
            Some(b) => Some(b),
            None => if vocab_entry(Vocab::Norm, n - 1).0 == name {
                Some(vocab_entry(Vocab::Norm, n - 1).1)
            } else {
                None
            },
        }
    }
}

/// The bit declared for `name` in the primary table, if any.
pub open spec fn spec_flag_bit(name: Seq<char>) -> Option<u32> {
    bit_for_name(name, vocab_len(Vocab::Norm))
}

proof fn lemma_bit_lookup_stable(name: Seq<char>, i: int, n: int)
    requires
        0 <= i < n <= vocab_len(Vocab::Norm),
        bit_for_name(name, i) is None,
        vocab_entry(Vocab::Norm, i).0 == name,
    ensures
        bit_for_name(name, n) == Some(vocab_entry(Vocab::Norm, i).1),
    decreases n,
{
    if n - 1 > i {
        lemma_bit_lookup_stable(name, i, n - 1);
    }
}

/// Resolve a flag name to its declared bit in the primary table.
pub fn flag_bit_of_name(name: &str) -> (r: Option<u32>)
    ensures
        r == spec_flag_bit(name@),
{
    let n = vocab_count(Vocab::Norm);
    let mut i: usize = 0;
    while i < n
        invariant
            i <= n,
            n as int == vocab_len(Vocab::Norm),
            bit_for_name(name@, i as int) is None,
        decreases n - i,
    {
        let (nm, mask) = vocab_table_entry(Vocab::Norm, i);
        if str_eq(nm, name) {
            proof {
                lemma_bit_lookup_stable(name@, i as int, vocab_len(Vocab::Norm));
            }
            return Some(mask);
        }
        i += 1;
    }
    None
}

/// A mask with exactly one bit set.
pub open spec fn single_bit(m: u32) -> bool {
    m != 0 && (m & ((m - 1) as u32)) == 0
}

proof fn lemma_distinct_single_bits(a: u32, b: u32)
    requires
        single_bit(a),
        single_bit(b),
        a != b,
    ensures
        a & b != b,
{
    assert(a != 0 && (a & ((a - 1) as u32)) == 0 && b != 0 && (b & ((b - 1) as u32)) == 0 && a != b
        ==> a & b != b) by (bit_vector);
}

/// Every mask in every vocabulary's table is a single bit.
proof fn lemma_vocab_mask_single(v: Vocab, i: int)
    requires
        0 <= i < vocab_len(v),
    ensures
        single_bit(vocab_entry(v, i).1),
{
    assert(0x0000_0001u32 & 0x0000_0000u32 == 0
        && 0x0000_0002u32 & 0x0000_0001u32 == 0
        && 0x0000_0004u32 & 0x0000_0003u32 == 0
        && 0x0000_0008u32 & 0x0000_0007u32 == 0
        && 0x0000_0010u32 & 0x0000_000fu32 == 0
        && 0x0000_0020u32 & 0x0000_001fu32 == 0
        && 0x0000_0040u32 & 0x0000_003fu32 == 0
        && 0x0000_0080u32 & 0x0000_007fu32 == 0
        && 0x0000_0100u32 & 0x0000_00ffu32 == 0
        && 0x0000_0200u32 & 0x0000_01ffu32 == 0
        && 0x0000_0400u32 & 0x0000_03ffu32 == 0
        && 0x0000_0800u32 & 0x0000_07ffu32 == 0
        && 0x0000_1000u32 & 0x0000_0fffu32 == 0
        && 0x0000_4000u32 & 0x0000_3fffu32 == 0
        && 0x0000_8000u32 & 0x0000_7fffu32 == 0
        && 0x0001_0000u32 & 0x0000_ffffu32 == 0
        && 0x0002_0000u32 & 0x0001_ffffu32 == 0
        && 0x0004_0000u32 & 0x0003_ffffu32 == 0
        && 0x0008_0000u32 & 0x0007_ffffu32 == 0
        && 0x0010_0000u32 & 0x000f_ffffu32 == 0
        && 0x0040_0000u32 & 0x003f_ffffu32 == 0
        && 0x0080_0000u32 & 0x007f_ffffu32 == 0
        && 0x0100_0000u32 & 0x00ff_ffffu32 == 0
        && 0x0200_0000u32 & 0x01ff_ffffu32 == 0
        && 0x0400_0000u32 & 0x03ff_ffffu32 == 0
        && 0x0800_0000u32 & 0x07ff_ffffu32 == 0
        && 0x1000_0000u32 & 0x0fff_ffffu32 == 0
        && 0x2000_0000u32 & 0x1fff_ffffu32 == 0
        && 0x4000_0000u32 & 0x3fff_ffffu32 == 0
        && 0x8000_0000u32 & 0x7fff_ffffu32 == 0) by (bit_vector);
}

/// A single-bit mask never selects a different table entry.
proof fn lemma_mask_misses_other_entries(v: Vocab, i: int, j: int)
    requires
        0 <= i < vocab_len(v),
        0 <= j < vocab_len(v),
        i != j,
    ensures
        vocab_entry(v, i).1 & vocab_entry(v, j).1 != vocab_entry(v, j).1,
{
    lemma_vocab_mask_single(v, i);
    lemma_vocab_mask_single(v, j);
    lemma_distinct_single_bits(vocab_entry(v, i).1, vocab_entry(v, j).1);
}

proof fn lemma_render_upto_single(v: Vocab, i: int, n: int)
    requires
        0 <= i < vocab_len(v),
        0 <= n <= vocab_len(v),
    ensures
        render_upto(v, vocab_entry(v, i).1, n) == if i < n {
            vocab_entry(v, i).0
        } else {
            Seq::<char>::empty()
        },
    decreases n,
{
    let bits = vocab_entry(v, i).1;
    if n > 0 {
        lemma_render_upto_single(v, i, n - 1);
        if n - 1 == i {
            assert(bits & bits == bits) by (bit_vector);
        } else {
            lemma_mask_misses_other_entries(v, i, n - 1);
        }
    }
}

/// Law: the rendering of a single declared flag bit is exactly that flag's
/// declared name.
pub proof fn lemma_render_single_flag(v: Vocab, i: int)
    requires
        0 <= i < vocab_len(v),
    ensures
        spec_render(v, vocab_entry(v, i).1) == vocab_entry(v, i).0,
{
    lemma_render_upto_single(v, i, vocab_len(v));
}

proof fn lemma_render_upto_zero(v: Vocab, n: int)
    requires
        0 <= n <= vocab_len(v),
    ensures
        render_upto(v, 0, n) == Seq::<char>::empty(),
    decreases n,
{
    if n > 0 {
        lemma_render_upto_zero(v, n - 1);
        lemma_vocab_mask_single(v, n - 1);
        assert(forall|m: u32| #![trigger 0u32 & m] 0u32 & m == 0) by (bit_vector);
    }
}

/// Law: the all-clear bitmask renders to the empty string in every
/// vocabulary.
pub proof fn lemma_render_zero(v: Vocab)
    ensures
        spec_render(v, 0) == Seq::<char>::empty(),
{
    lemma_render_upto_zero(v, vocab_len(v));
}

/// The names of the flags of `bits` among the first `n` table entries, in
/// table-declaration order.
pub open spec fn matching_names(v: Vocab, bits: u32, n: int) -> Seq<Seq<char>>
    decreases n,
{
    if n <= 0 {
        Seq::empty()
    } else {
        let prev = matching_names(v, bits, n - 1);
        let mask = vocab_entry(v, n - 1).1;
        if bits & mask == mask {
            prev.push(vocab_entry(v, n - 1).0)
        } else {
            prev
        }
    }
}

/// The given names joined by the fixed separator.
pub open spec fn sep_join(names: Seq<Seq<char>>) -> Seq<char>
    decreases names.len(),
{
    if names.len() == 0 {
        Seq::empty()
    } else if names.len() == 1 {
        names[0]
    } else {
        sep_join(names.drop_last()) + " | "@ + names.last()
    }
}

/// Every declared flag name is nonempty text.
proof fn lemma_vocab_name_nonempty(v: Vocab, i: int)
    requires
        0 <= i < vocab_len(v),
    ensures
        vocab_entry(v, i).0.len() > 0,
{
    reveal_strlit("FolderEvent");
    reveal_strlit("Mount");
    reveal_strlit("Unmount");
    reveal_strlit("EndOfTransaction");
    reveal_strlit("LastHardLinkRemoved");
    reveal_strlit("HardLink");
    reveal_strlit("SymbolicLink");
    reveal_strlit("FileEvent");
    reveal_strlit("PermissionChange");
    reveal_strlit("ExtendedAttrModified");
    reveal_strlit("ExtendedAttrRemoved");
    reveal_strlit("DocumentRevisioning");
    reveal_strlit("ItemCloned");
    reveal_strlit("Created");
    reveal_strlit("Removed");
    reveal_strlit("InodeMetaMod");
    reveal_strlit("Renamed");
    reveal_strlit("Modified");
    reveal_strlit("Exchange");
    reveal_strlit("FinderInfoMod");
    reveal_strlit("FolderCreated");
    reveal_strlit("RenamedOrMoved");
    reveal_strlit("XAttrModified");
    reveal_strlit("XAttrRemoved");
    reveal_strlit("0x00000800");
    reveal_strlit("DocumentRevision");
}

proof fn lemma_matching_names_nonempty(v: Vocab, bits: u32, n: int)
    requires
        0 <= n <= vocab_len(v),
    ensures
        forall|k: int|
            0 <= k < matching_names(v, bits, n).len() ==> (#[trigger] matching_names(
                v,
                bits,
                n,
            )[k]).len() > 0,
    decreases n,
{
    if n > 0 {
        lemma_matching_names_nonempty(v, bits, n - 1);
        lemma_vocab_name_nonempty(v, n - 1);
        let ms = matching_names(v, bits, n - 1);
        let mask = vocab_entry(v, n - 1).1;
        if bits & mask == mask {
            let full = ms.push(vocab_entry(v, n - 1).0);
            assert(forall|k: int|
                0 <= k < full.len() ==> (#[trigger] full[k]) == if k < ms.len() {
                    ms[k]
                } else {
                    vocab_entry(v, n - 1).0
                });
        }
    }
}

proof fn lemma_sep_join_nonempty(names: Seq<Seq<char>>)
    requires
        forall|k: int| 0 <= k < names.len() ==> (#[trigger] names[k]).len() > 0,
        names.len() > 0,
    ensures
        sep_join(names).len() > 0,
    decreases names.len(),
{
    if names.len() > 1 {
        assert(names.last().len() > 0);
    }
}

proof fn lemma_render_upto_joins(v: Vocab, bits: u32, n: int)
    requires
        0 <= n <= vocab_len(v),
    ensures
        render_upto(v, bits, n) == sep_join(matching_names(v, bits, n)),
    decreases n,
{
    if n > 0 {
        lemma_render_upto_joins(v, bits, n - 1);
        let prev = render_upto(v, bits, n - 1);
        let ms = matching_names(v, bits, n - 1);
        let mask = vocab_entry(v, n - 1).1;
        let name = vocab_entry(v, n - 1).0;
        if bits & mask == mask {
            assert(ms.push(name).drop_last() =~= ms);
            if ms.len() == 0 {
                assert(sep_join(ms.push(name)) == name);
            } else {
                lemma_matching_names_nonempty(v, bits, n - 1);
                lemma_sep_join_nonempty(ms);
                assert(sep_join(ms.push(name)) == sep_join(ms) + " | "@ + name);
            }
        }
    }
}

/// Law: for any bitmask, the rendered text is exactly the names of the set
/// flags, in table-declaration order, joined by the fixed separator.
pub proof fn lemma_render_lists_set_flags(v: Vocab, bits: u32)
    ensures
        spec_render(v, bits) == sep_join(matching_names(v, bits, vocab_len(v))),
{
    lemma_render_upto_joins(v, bits, vocab_len(v));
}

} // verus!
