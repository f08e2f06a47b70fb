//! CPU templates: which CPUID features a guest sees.
//!
//! A template is a list of filters, each of which ANDs masks to the registers of
//! a CPUID leaf. It hides what hosts differ in, so that a guest can move between
//! them.

use crate::text;
use vstd::prelude::*;

verus! {

/// Errors of CPU template operations.
#[derive(Debug)]
#[non_exhaustive]
pub enum CpuTemplateError {
    /// The template could not be parsed.
    Parse(String),
    /// The template names a CPUID leaf that there is not.
    InvalidLeaf {
        /// Template name.
        name: String,
        /// The leaf.
        leaf: u32,
    },
}

impl CpuTemplateError {
    /// The text that describes the error.
    pub open spec fn spec_message(self) -> Seq<char> {
        match self {
            CpuTemplateError::Parse(t) => "failed to parse CPU template: "@ + t@,
            CpuTemplateError::InvalidLeaf { name, leaf } => "invalid CPUID leaf 0x"@ + text::hex(
                leaf as nat,
            ) + " in template '"@ + name@ + "'"@,
        }
    }

    /// The text that describes the error.
    pub fn message(&self) -> (r: String)
        ensures
            r@ == self.spec_message(),
    {
        match self {
            CpuTemplateError::Parse(t) => {
                let mut s = "failed to parse CPU template: ".to_owned();
                s.append(t.as_str());
                s
            },
            CpuTemplateError::InvalidLeaf { name, leaf } => {
                let mut s = "invalid CPUID leaf 0x".to_owned();
                text::push_hex(&mut s, *leaf as u64);
                s.append(" in template '");
                s.append(name.as_str());
                s.append("'");
                s
            },
        }
    }
}

/// What CPUID gives for a leaf and a subleaf.
#[derive(Debug, Clone, Copy, PartialEq, Eq, Structural)]
pub struct CpuidEntry {
    /// The leaf.
    pub function: u32,
    /// The subleaf.
    pub index: u32,
    /// Flags that KVM keeps with the entry.
    pub flags: u32,
    pub eax: u32,
    pub ebx: u32,
    pub ecx: u32,
    pub edx: u32,
}

/// A mask that preserves all bits.
pub const MASK_ALL: u32 = 0xFFFF_FFFF;

/// What a Zen 2 shows of EBX of leaf 7: all but the AVX-512 bits.
pub const ZEN2_EXTENDED_EBX: u32 = 0x23DC_FFFF;

/// A filter of one CPUID leaf and subleaf: masks that are ANDed to the registers.
#[derive(Debug, Clone, Copy, PartialEq, Eq, Structural)]
pub struct CpuIdFilter {
    /// CPUID leaf.
    pub leaf: u32,
    /// CPUID subleaf.
    pub subleaf: u32,
    /// AND mask for EAX.
    pub eax_mask: u32,
    /// AND mask for EBX.
    pub ebx_mask: u32,
    /// AND mask for ECX.
    pub ecx_mask: u32,
    /// AND mask for EDX.
    pub edx_mask: u32,
}

/// A CPU template.
#[derive(Debug, Clone)]
pub struct CpuTemplate {
    /// Template name.
    pub name: String,
    /// Human-readable description.
    pub description: String,
    /// The filters.
    pub filters: Vec<CpuIdFilter>,
}

/// The masks of the four registers.
#[verifier::ext_equal]
pub struct Masks {
    pub eax: u32,
    pub ebx: u32,
    pub ecx: u32,
    pub edx: u32,
}

/// What the filters of a leaf and subleaf have in common: the AND of their masks.
pub open spec fn masks(filters: Seq<CpuIdFilter>, leaf: u32, subleaf: u32) -> Masks
    decreases filters.len(),
{
    if filters.len() == 0 {
        Masks { eax: MASK_ALL, ebx: MASK_ALL, ecx: MASK_ALL, edx: MASK_ALL }
    } else {
        let m = masks(filters.drop_last(), leaf, subleaf);
        let f = filters.last();
        if f.leaf == leaf && f.subleaf == subleaf {
            Masks {
                eax: m.eax & f.eax_mask,
                ebx: m.ebx & f.ebx_mask,
                ecx: m.ecx & f.ecx_mask,
                edx: m.edx & f.edx_mask,
            }
        } else {
            m
        }
    }
}

/// An entry with the masks of its leaf and subleaf applied.
pub open spec fn filtered(filters: Seq<CpuIdFilter>, e: CpuidEntry) -> CpuidEntry {
    let m = masks(filters, e.function, e.index);
    CpuidEntry {
        function: e.function,
        index: e.index,
        flags: e.flags,
        eax: e.eax & m.eax,
        ebx: e.ebx & m.ebx,
        ecx: e.ecx & m.ecx,
        edx: e.edx & m.edx,
    }
}

proof fn lemma_and(x: u32, m: u32, n: u32)
    ensures
        x & 0xFFFF_FFFFu32 == x,
        (x & m) & n == x & (m & n),
        (x & m) & m == x & m,
        (x & m) & x == x & m,
{
    assert(x & 0xFFFF_FFFFu32 == x && (x & m) & n == x & (m & n) && (x & m) & m == x & m && (x & m)
        & x == x & m) by (bit_vector);
}

impl CpuTemplate {
    /// Applies the filters to CPUID entries. Entries that no filter is for stay
    /// as they are.
    pub fn apply(&self, entries: &mut [CpuidEntry])
        ensures
            final(entries)@.len() == old(entries)@.len(),
            forall|j: int|
                0 <= j < old(entries)@.len() ==> #[trigger] final(entries)@[j] == filtered(
                    self.filters@,
                    old(entries)@[j],
                ),
    {
        let ghost before = entries@;
        let mut i: usize = 0;
        assert(self.filters@.take(0) =~= Seq::<CpuIdFilter>::empty());
        proof {
            assert forall|j: int| 0 <= j < before.len() implies #[trigger] entries@[j] == filtered(
                self.filters@.take(0),
                before[j],
            ) by {
                lemma_and(before[j].eax, 0, 0);
                lemma_and(before[j].ebx, 0, 0);
                lemma_and(before[j].ecx, 0, 0);
                lemma_and(before[j].edx, 0, 0);
            }
        }
        while i < self.filters.len()
            invariant
                i <= self.filters@.len(),
                entries@.len() == before.len(),
                forall|j: int|
                    0 <= j < before.len() ==> #[trigger] entries@[j] == filtered(
                        self.filters@.take(i as int),
                        before[j],
                    ),
            decreases self.filters@.len() - i,
        {
            let f = self.filters[i];
            let ghost done = self.filters@.take(i as int);
            let ghost more = self.filters@.take(i + 1);
            assert(more.drop_last() =~= done && more.last() == f);
            let n: usize = entries.len();
            let mut j: usize = 0;
            while j < n
                invariant
                    j <= n,
                    n == before.len(),
                    entries@.len() == before.len(),
                    more.len() > 0,
                    more.drop_last() == done,
                    more.last() == f,
                    forall|k: int|
                        0 <= k < j ==> #[trigger] entries@[k] == filtered(more, before[k]),
                    forall|k: int|
                        j <= k < before.len() ==> #[trigger] entries@[k] == filtered(
                            done,
                            before[k],
                        ),
                decreases n - j,
            {
                let e = entries[j];
                if e.function == f.leaf && e.index == f.subleaf {
                    entries[j] = CpuidEntry {
                        function: e.function,
                        index: e.index,
                        flags: e.flags,
                        eax: e.eax & f.eax_mask,
                        ebx: e.ebx & f.ebx_mask,
                        ecx: e.ecx & f.ecx_mask,
                        edx: e.edx & f.edx_mask,
                    };
                    proof {
                        let b = before[j as int];
                        let m = masks(done, b.function, b.index);
                        lemma_and(b.eax, m.eax, f.eax_mask);
                        lemma_and(b.ebx, m.ebx, f.ebx_mask);
                        lemma_and(b.ecx, m.ecx, f.ecx_mask);
                        lemma_and(b.edx, m.edx, f.edx_mask);
                    }
                }
                j = j + 1;
            }
            i = i + 1;
        }
        assert(self.filters@.take(i as int) =~= self.filters@);
    }

    /// The built-in "common" template: hides the hypervisor bit (leaf 1, ECX bit
    /// 31) and the TSC deadline timer (leaf 1, ECX bit 24).
    #[must_use]
    pub fn common() -> (r: Self)
        ensures
            r.name@ == "common"@,
            r.description@ == "Common baseline: masks hypervisor bit and TSC deadline timer"@,
            r.filters@ == seq![leaf_one_filter()],
    {
        let filters = vec![leaf_one()];
        assert(filters@ =~= seq![leaf_one_filter()]);
        CpuTemplate {
            name: "common".to_owned(),
            description: "Common baseline: masks hypervisor bit and TSC deadline timer".to_owned(),
            filters,
        }
    }

    /// The built-in "Zen 2 baseline" template: hides what not every Zen 2 has.
    #[must_use]
    pub fn zen2() -> (r: Self)
        ensures
            r.name@ == "zen2-baseline"@,
            r.description@ == "AMD Zen 2 lowest common denominator for live migration"@,
            r.filters@ == seq![
                leaf_one_filter(),
                ebx_filter(0x07, ZEN2_EXTENDED_EBX),
                ecx_filter(0x8000_0001, 0xFFFF_FFFE),
            ],
    {
        let filters = vec![
            leaf_one(),
            CpuIdFilter {
                leaf: 0x07,
                subleaf: 0,
                eax_mask: MASK_ALL,
                ebx_mask: ZEN2_EXTENDED_EBX,
                ecx_mask: MASK_ALL,
                edx_mask: MASK_ALL,
            },
            lahf(),
        ];
        assert(filters@ =~= seq![
            leaf_one_filter(),
            ebx_filter(0x07, ZEN2_EXTENDED_EBX),
            ecx_filter(0x8000_0001, 0xFFFF_FFFE),
        ]);
        CpuTemplate {
            name: "zen2-baseline".to_owned(),
            description: "AMD Zen 2 lowest common denominator for live migration".to_owned(),
            filters,
        }
    }

    /// The built-in "Ice Lake baseline" template: hides what not every Ice Lake
    /// has, SGX (leaf 7, EBX bit 2) among it.
    #[must_use]
    pub fn icelake() -> (r: Self)
        ensures
            r.name@ == "icelake-baseline"@,
            r.description@ == "Intel Ice Lake lowest common denominator for live migration"@,
            r.filters@ == seq![
                leaf_one_filter(),
                ebx_filter(0x07, 0xFFFF_FFFB),
                ecx_filter(0x8000_0001, 0xFFFF_FFFE),
            ],
    {
        let filters = vec![
            leaf_one(),
            CpuIdFilter {
                leaf: 0x07,
                subleaf: 0,
                eax_mask: MASK_ALL,
                ebx_mask: 0xFFFF_FFFB,
                ecx_mask: MASK_ALL,
                edx_mask: MASK_ALL,
            },
            lahf(),
        ];
        assert(filters@ =~= seq![
            leaf_one_filter(),
            ebx_filter(0x07, 0xFFFF_FFFB),
            ecx_filter(0x8000_0001, 0xFFFF_FFFE),
        ]);
        CpuTemplate {
            name: "icelake-baseline".to_owned(),
            description: "Intel Ice Lake lowest common denominator for live migration".to_owned(),
            filters,
        }
    }
}

/// A filter of EBX of a leaf.
pub open spec fn ebx_filter(leaf: u32, mask: u32) -> CpuIdFilter {
    CpuIdFilter {
        leaf,
        subleaf: 0,
        eax_mask: MASK_ALL,
        ebx_mask: mask,
        ecx_mask: MASK_ALL,
        edx_mask: MASK_ALL,
    }
}

/// A filter of ECX of a leaf.
pub open spec fn ecx_filter(leaf: u32, mask: u32) -> CpuIdFilter {
    CpuIdFilter {
        leaf,
        subleaf: 0,
        eax_mask: MASK_ALL,
        ebx_mask: MASK_ALL,
        ecx_mask: mask,
        edx_mask: MASK_ALL,
    }
}

/// The filter of leaf 1, without ECX bits 31 and 24.
pub open spec fn leaf_one_filter() -> CpuIdFilter {
    ecx_filter(0x01, 0x7EFF_FFFF)
}

fn leaf_one() -> (r: CpuIdFilter)
    ensures
        r == leaf_one_filter(),
{
    CpuIdFilter {
        leaf: 0x01,
        subleaf: 0,
        eax_mask: MASK_ALL,
        ebx_mask: MASK_ALL,
        ecx_mask: 0x7EFF_FFFF,
        edx_mask: MASK_ALL,
    }
}

/// The filter that hides LAHF and SAHF in 64-bit mode.
fn lahf() -> (r: CpuIdFilter)
    ensures
        r == ecx_filter(0x8000_0001, 0xFFFF_FFFE),
{
    CpuIdFilter {
        leaf: 0x8000_0001,
        subleaf: 0,
        eax_mask: MASK_ALL,
        ebx_mask: MASK_ALL,
        ecx_mask: 0xFFFF_FFFE,
        edx_mask: MASK_ALL,
    }
}

/// Applying a template twice is applying it once.
pub proof fn law_filtering_is_idempotent(filters: Seq<CpuIdFilter>, e: CpuidEntry)
    ensures
        filtered(filters, filtered(filters, e)) == filtered(filters, e),
{
    let m = masks(filters, e.function, e.index);
    lemma_and(e.eax, m.eax, 0);
    lemma_and(e.ebx, m.ebx, 0);
    lemma_and(e.ecx, m.ecx, 0);
    lemma_and(e.edx, m.edx, 0);
}

/// A template only ever hides features: no bit is set that was not.
pub proof fn law_filtering_only_clears(filters: Seq<CpuIdFilter>, e: CpuidEntry)
    ensures
        ({
            let r = filtered(filters, e);
            &&& r.eax & e.eax == r.eax
            &&& r.ebx & e.ebx == r.ebx
            &&& r.ecx & e.ecx == r.ecx
            &&& r.edx & e.edx == r.edx
        }),
{
    let m = masks(filters, e.function, e.index);
    lemma_and(e.eax, m.eax, 0);
    lemma_and(e.ebx, m.ebx, 0);
    lemma_and(e.ecx, m.ecx, 0);
    lemma_and(e.edx, m.edx, 0);
}

/// The common masks of filters are within the masks of each.
proof fn lemma_masks_within(filters: Seq<CpuIdFilter>, i: int)
    requires
        0 <= i < filters.len(),
    ensures
        ({
            let f = filters[i];
            let m = masks(filters, f.leaf, f.subleaf);
            &&& m.eax & f.eax_mask == m.eax
            &&& m.ebx & f.ebx_mask == m.ebx
            &&& m.ecx & f.ecx_mask == m.ecx
            &&& m.edx & f.edx_mask == m.edx
        }),
    decreases filters.len(),
{
    let f = filters[i];
    let front = filters.drop_last();
    let g = filters.last();
    let m = masks(front, f.leaf, f.subleaf);
    if i == filters.len() - 1 {
        lemma_and(m.eax, f.eax_mask, 0);
        lemma_and(m.ebx, f.ebx_mask, 0);
        lemma_and(m.ecx, f.ecx_mask, 0);
        lemma_and(m.edx, f.edx_mask, 0);
    } else {
        lemma_masks_within(front, i);
        lemma_swap(m.eax, f.eax_mask, g.eax_mask);
        lemma_swap(m.ebx, f.ebx_mask, g.ebx_mask);
        lemma_swap(m.ecx, f.ecx_mask, g.ecx_mask);
        lemma_swap(m.edx, f.edx_mask, g.edx_mask);
    }
}

proof fn lemma_swap(x: u32, m: u32, n: u32)
    requires
        x & m == x,
    ensures
        (x & n) & m == x & n,
{
    assert((x & n) & m == x & n) by (bit_vector)
        requires
            x & m == x,
    ;
}

/// What a filter hides of its leaf and subleaf stays hidden, whatever other
/// filters there are.
pub proof fn law_hidden_stays_hidden(filters: Seq<CpuIdFilter>, i: int, e: CpuidEntry)
    requires
        0 <= i < filters.len(),
        e.function == filters[i].leaf,
        e.index == filters[i].subleaf,
    ensures
        ({
            let r = filtered(filters, e);
            &&& r.eax & filters[i].eax_mask == r.eax
            &&& r.ebx & filters[i].ebx_mask == r.ebx
            &&& r.ecx & filters[i].ecx_mask == r.ecx
            &&& r.edx & filters[i].edx_mask == r.edx
        }),
{
    let f = filters[i];
    let m = masks(filters, f.leaf, f.subleaf);
    lemma_masks_within(filters, i);
    lemma_and(e.eax, m.eax, f.eax_mask);
    lemma_and(e.ebx, m.ebx, f.ebx_mask);
    lemma_and(e.ecx, m.ecx, f.ecx_mask);
    lemma_and(e.edx, m.edx, f.edx_mask);
}

/// Entries that no filter is for pass through unchanged.
pub proof fn law_other_leaves_pass(filters: Seq<CpuIdFilter>, e: CpuidEntry)
    requires
        forall|i: int|
            0 <= i < filters.len() ==> (#[trigger] filters[i]).leaf != e.function
                || filters[i].subleaf != e.index,
    ensures
        filtered(filters, e) == e,
    decreases filters.len(),
{
    if filters.len() > 0 {
        assert(filters.last() == filters[filters.len() - 1]);
        law_other_leaves_pass(filters.drop_last(), e);
    } else {
        lemma_and(e.eax, 0, 0);
        lemma_and(e.ebx, 0, 0);
        lemma_and(e.ecx, 0, 0);
        lemma_and(e.edx, 0, 0);
    }
}

/// What the Zen 2 template hides of EBX of leaf 7 is AVX-512 and nothing else:
/// AVX512F, DQ, IFMA, PF, ER, CD, BW and VL.
pub proof fn law_zen2_hides_avx512(bit: u32)
    requires
        bit < 32,
    ensures
        (ZEN2_EXTENDED_EBX >> bit) & 1 == 0 <==> (bit == 16 || bit == 17 || bit == 21 || bit == 26
            || bit == 27 || bit == 28 || bit == 30 || bit == 31),
{
    assert((0x23DC_FFFFu32 >> bit) & 1 == 0 <==> (bit == 16 || bit == 17 || bit == 21 || bit == 26
        || bit == 27 || bit == 28 || bit == 30 || bit == 31)) by (bit_vector)
        requires
            bit < 32,
    ;
}

/// Why a text is not a 32-bit hexadecimal number.
#[derive(Debug, Clone, Copy, PartialEq, Eq, Structural)]
pub enum HexFault {
    /// There are no digits.
    Empty,
    /// A character is no hexadecimal digit.
    InvalidDigit,
    /// The number does not fit into 32 bits.
    Overflow,
}

/// The value of a hexadecimal digit.
pub open spec fn hex_digit(b: u8) -> Option<nat> {
    if 0x30 <= b <= 0x39 {
        Some((b - 0x30) as nat)
    } else if 0x61 <= b <= 0x66 {
        Some((b - 0x61 + 10) as nat)
    } else if 0x41 <= b <= 0x46 {
        Some((b - 0x41 + 10) as nat)
    } else {
        None
    }
}

/// The number that digits add to one that was read, from left to right up to
/// the first that cannot be taken.
pub open spec fn hex_from(acc: nat, s: Seq<u8>) -> Result<u32, HexFault>
    decreases s.len(),
{
    if s.len() == 0 {
        Ok(acc as u32)
    } else {
        match hex_digit(s[0]) {
            None => Err(HexFault::InvalidDigit),
            Some(d) => if acc * 16 + d > u32::MAX {
                Err(HexFault::Overflow)
            } else {
                hex_from(acc * 16 + d, s.skip(1))
            },
        }
    }
}

/// The bytes behind a prefix `0x` or `0X`.
pub open spec fn without_prefix(s: Seq<u8>) -> Seq<u8> {
    if s.len() >= 2 && s[0] == 0x30 && (s[1] == 0x78 || s[1] == 0x58) {
        s.skip(2)
    } else {
        s
    }
}

/// The number that a text in hexadecimal stands for. It may have a prefix, and a
/// plus sign behind it.
pub open spec fn hex_value(s: Seq<u8>) -> Result<u32, HexFault> {
    let t = without_prefix(s);
    if t.len() == 0 {
        Err(HexFault::Empty)
    } else if t.len() == 1 && (t[0] == 0x2b || t[0] == 0x2d) {
        Err(HexFault::InvalidDigit)
    } else if t[0] == 0x2b {
        hex_from(0, t.skip(1))
    } else {
        hex_from(0, t)
    }
}

/// What is said of a text that is no number.
pub open spec fn complaint(s: Seq<char>, f: HexFault) -> Seq<char> {
    "invalid hex value '"@ + s + "': "@ + f.spec_text()
}

/// The number that a text stands for, or what is said of it.
pub open spec fn number_of(s: Seq<char>) -> Result<u32, Seq<char>> {
    match hex_value(vstd::utf8::encode_utf8(s)) {
        Ok(n) => Ok(n),
        Err(f) => Err(complaint(s, f)),
    }
}

/// Whether a result is the one that a model gives.
pub open spec fn tells<A>(r: Result<A, String>, m: Result<A, Seq<char>>) -> bool {
    match m {
        Ok(a) => r == Ok::<A, String>(a),
        Err(t) => r is Err && r->Err_0@ == t,
    }
}

/// Reads a 32-bit number in hexadecimal like `0x07` or `0xFFFFFFDF`.
pub fn parse_hex_u32(s: &str) -> (r: Result<u32, String>)
    ensures
        tells(r, number_of(s@)),
{
    match read_hex(s) {
        Ok(n) => Ok(n),
        Err(f) => {
            let mut m = "invalid hex value '".to_owned();
            m.append(s);
            m.append("': ");
            m.append(f.text());
            Err(m)
        },
    }
}

/// Reads the digits of a number in hexadecimal.
fn read_hex(s: &str) -> (r: Result<u32, HexFault>)
    ensures
        r == hex_value(vstd::utf8::encode_utf8(s@)),
{
    let b = s.as_bytes();
    let ghost all = b@;
    let n: usize = b.len();
    let mut i: usize = 0;
    if n >= 2 && b[0] == 0x30 && (b[1] == 0x78 || b[1] == 0x58) {
        i = 2;
    }
    let ghost t = without_prefix(all);
    assert(t =~= all.skip(i as int));
    if i == n {
        return Err(HexFault::Empty);
    }
    if n - i == 1 && (b[i] == 0x2b || b[i] == 0x2d) {
        return Err(HexFault::InvalidDigit);
    }
    if b[i] == 0x2b {
        assert(all.skip(i as int).skip(1) =~= all.skip(i + 1));
        i = i + 1;
    }
    let mut acc: u32 = 0;
    while i < n
        invariant
            i <= n,
            n == all.len(),
            b@ == all,
            all == vstd::utf8::encode_utf8(s@),
            hex_value(all) == hex_from(acc as nat, all.skip(i as int)),
        decreases n - i,
    {
        let c = b[i];
        assert(all.skip(i as int).skip(1) =~= all.skip(i + 1));
        let d: u8 = if 0x30 <= c && c <= 0x39 {
            c - 0x30
        } else if 0x61 <= c && c <= 0x66 {
            c - 0x61 + 10
        } else if 0x41 <= c && c <= 0x46 {
            c - 0x41 + 10
        } else {
            return Err(HexFault::InvalidDigit);
        };
        let next: u64 = acc as u64 * 16 + d as u64;
        if next > 0xFFFF_FFFF {
            return Err(HexFault::Overflow);
        }
        acc = next as u32;
        i = i + 1;
    }
    Ok(acc)
}

/// A filter as it is written down: texts in hexadecimal, all but the leaf
/// optional.
#[derive(Debug)]
pub struct RawFilter {
    pub leaf: String,
    pub subleaf: Option<String>,
    pub eax_mask: Option<String>,
    pub ebx_mask: Option<String>,
    pub ecx_mask: Option<String>,
    pub edx_mask: Option<String>,
}

/// The number that an optional text stands for; none or an empty one stands for
/// a default.
pub open spec fn value_or(s: Option<String>, default: u32) -> Result<u32, Seq<char>> {
    match s {
        None => Ok(default),
        Some(t) => if t@.len() == 0 {
            Ok(default)
        } else {
            number_of(t@)
        },
    }
}

/// Reads an optional number in hexadecimal.
pub fn parse_hex_u32_or(s: &Option<String>, default: u32) -> (r: Result<u32, String>)
    ensures
        tells(r, value_or(*s, default)),
{
    match s {
        None => Ok(default),
        Some(t) => {
            if t.as_str().unicode_len() == 0 {
                Ok(default)
            } else {
                parse_hex_u32(t.as_str())
            }
        },
    }
}

/// The filter that is written down, or what is said of the first of its texts
/// that is wrong.
pub open spec fn filter_of(raw: RawFilter) -> Result<CpuIdFilter, Seq<char>> {
    match (
        number_of(raw.leaf@),
        value_or(raw.subleaf, 0),
        value_or(raw.eax_mask, MASK_ALL),
        value_or(raw.ebx_mask, MASK_ALL),
        value_or(raw.ecx_mask, MASK_ALL),
        value_or(raw.edx_mask, MASK_ALL),
    ) {
        (Err(e), _, _, _, _, _) => Err(e),
        (_, Err(e), _, _, _, _) => Err(e),
        (_, _, Err(e), _, _, _) => Err(e),
        (_, _, _, Err(e), _, _) => Err(e),
        (_, _, _, _, Err(e), _) => Err(e),
        (_, _, _, _, _, Err(e)) => Err(e),
        (Ok(leaf), Ok(subleaf), Ok(eax_mask), Ok(ebx_mask), Ok(ecx_mask), Ok(edx_mask)) => Ok(
            CpuIdFilter { leaf, subleaf, eax_mask, ebx_mask, ecx_mask, edx_mask },
        ),
    }
}

impl RawFilter {
    /// Reads the numbers of a filter. An absent subleaf is 0, an absent mask
    /// preserves all bits.
    pub fn filter(&self) -> (r: Result<CpuIdFilter, String>)
        ensures
            tells(r, filter_of(*self)),
    {
        let leaf = match parse_hex_u32(self.leaf.as_str()) {
            Ok(v) => v,
            Err(e) => return Err(e),
        };
        let subleaf = match parse_hex_u32_or(&self.subleaf, 0) {
            Ok(v) => v,
            Err(e) => return Err(e),
        };
        let eax_mask = match parse_hex_u32_or(&self.eax_mask, MASK_ALL) {
            Ok(v) => v,
            Err(e) => return Err(e),
        };
        let ebx_mask = match parse_hex_u32_or(&self.ebx_mask, MASK_ALL) {
            Ok(v) => v,
            Err(e) => return Err(e),
        };
        let ecx_mask = match parse_hex_u32_or(&self.ecx_mask, MASK_ALL) {
            Ok(v) => v,
            Err(e) => return Err(e),
        };
        let edx_mask = match parse_hex_u32_or(&self.edx_mask, MASK_ALL) {
            Ok(v) => v,
            Err(e) => return Err(e),
        };
        Ok(CpuIdFilter { leaf, subleaf, eax_mask, ebx_mask, ecx_mask, edx_mask })
    }
}

/// A template as it is written down.
#[derive(Debug)]
pub struct RawTemplate {
    pub name: String,
    pub description: String,
    pub filters: Vec<RawFilter>,
}

/// The first `n` filters of a template that is written down, or what is said of
/// the first that is wrong.
pub open spec fn filters_of(raw: Seq<RawFilter>, n: int) -> Result<Seq<CpuIdFilter>, Seq<char>>
    decreases n,
{
    if n <= 0 {
        Ok(Seq::empty())
    } else {
        match (filters_of(raw, n - 1), filter_of(raw[n - 1])) {
            (Err(e), _) => Err(e),
            (_, Err(e)) => Err(e),
            (Ok(before), Ok(f)) => Ok(before.push(f)),
        }
    }
}

/// A template with something wrong in it stays one.
proof fn lemma_filters_fail(raw: Seq<RawFilter>, n: int, m: int)
    requires
        n <= m,
        filters_of(raw, n) is Err,
    ensures
        filters_of(raw, m) == filters_of(raw, n),
    decreases m - n,
{
    if n < m {
        lemma_filters_fail(raw, n, m - 1);
    }
}

impl RawTemplate {
    /// Reads the numbers of a template's filters.
    pub fn template(self) -> (r: Result<CpuTemplate, CpuTemplateError>)
        ensures
            match filters_of(self.filters@, self.filters@.len() as int) {
                Ok(filters) => {
                    &&& r is Ok
                    &&& r->Ok_0.name == self.name
                    &&& r->Ok_0.description == self.description
                    &&& r->Ok_0.filters@ == filters
                },
                Err(t) => r matches Err(CpuTemplateError::Parse(s)) && s@ == t,
            },
    {
        let mut filters: Vec<CpuIdFilter> = Vec::new();
        let n: usize = self.filters.len();
        let mut i: usize = 0;
        while i < n
            invariant
                i <= n,
                n == self.filters@.len(),
                filters_of(self.filters@, i as int) == Ok::<Seq<CpuIdFilter>, Seq<char>>(filters@),
            decreases n - i,
        {
            match self.filters[i].filter() {
                Ok(f) => filters.push(f),
                Err(t) => {
                    proof {
                        lemma_filters_fail(self.filters@, i + 1, n as int);
                    }
                    return Err(CpuTemplateError::Parse(t));
                },
            }
            i = i + 1;
        }
        Ok(CpuTemplate { name: self.name, description: self.description, filters })
    }
}

impl HexFault {
    /// The text that describes what is wrong.
    pub open spec fn spec_text(self) -> Seq<char> {
        match self {
            HexFault::Empty => "cannot parse integer from empty string"@,
            HexFault::InvalidDigit => "invalid digit found in string"@,
            HexFault::Overflow => "number too large to fit in target type"@,
        }
    }

    /// The text that describes what is wrong.
    pub fn text(&self) -> (r: &'static str)
        ensures
            r@ == self.spec_text(),
    {
        match self {
            HexFault::Empty => "cannot parse integer from empty string",
            HexFault::InvalidDigit => "invalid digit found in string",
            HexFault::Overflow => "number too large to fit in target type",
        }
    }
}

} // verus!
