//! What a CPU template hides from the guest, and how one is read.

use crate::cpu_template::{self, CpuIdFilter, CpuidEntry, HexFault, RawFilter};
use vstd::prelude::*;

verus! {

/// Whether a bit of a register is set.
pub open spec fn bit(x: u32, i: u32) -> bool {
    (x >> i) & 1 == 1
}

/// Whether a filter is meant for an entry.
pub open spec fn meant(f: CpuIdFilter, e: CpuidEntry) -> bool {
    f.leaf == e.function && f.subleaf == e.index
}

proof fn lemma_both(x: u32, y: u32, i: u32)
    requires
        i < 32,
    ensures
        bit(x & y, i) == (bit(x, i) && bit(y, i)),
        bit(0xffff_ffff, i),
{
    assert(((x & y) >> i) & 1 == 1 <==> ((x >> i) & 1 == 1 && (y >> i) & 1 == 1)) by (bit_vector);
    assert((0xffff_ffffu32 >> i) & 1 == 1) by (bit_vector)
        requires
            i < 32,
    ;
}

proof fn lemma_masks(filters: Seq<CpuIdFilter>, e: CpuidEntry, i: u32)
    requires
        i < 32,
    ensures
        ({
            let m = cpu_template::masks(filters, e.function, e.index);
            &&& bit(m.eax, i) <==> forall|k: int|
                0 <= k < filters.len() && meant(#[trigger] filters[k], e) ==> bit(
                    filters[k].eax_mask,
                    i,
                )
            &&& bit(m.ebx, i) <==> forall|k: int|
                0 <= k < filters.len() && meant(#[trigger] filters[k], e) ==> bit(
                    filters[k].ebx_mask,
                    i,
                )
            &&& bit(m.ecx, i) <==> forall|k: int|
                0 <= k < filters.len() && meant(#[trigger] filters[k], e) ==> bit(
                    filters[k].ecx_mask,
                    i,
                )
            &&& bit(m.edx, i) <==> forall|k: int|
                0 <= k < filters.len() && meant(#[trigger] filters[k], e) ==> bit(
                    filters[k].edx_mask,
                    i,
                )
        }),
    decreases filters.len(),
{
    lemma_both(0, 0, i);
    if filters.len() > 0 {
        let rest = filters.drop_last();
        let n = filters.len() - 1;
        let f = filters.last();
        assert(filters[n] == f);
        lemma_masks(rest, e, i);
        let m = cpu_template::masks(rest, e.function, e.index);
        lemma_both(m.eax, f.eax_mask, i);
        lemma_both(m.ebx, f.ebx_mask, i);
        lemma_both(m.ecx, f.ecx_mask, i);
        lemma_both(m.edx, f.edx_mask, i);
        assert forall|k: int| 0 <= k < rest.len() implies #[trigger] rest[k] == filters[k] by {}
        let w = cpu_template::masks(filters, e.function, e.index);
        lemma_longer(rest, f, e, i);
        assert(rest.push(f) =~= filters);
    }
}

/// One filter more asks for one mask more.
proof fn lemma_longer(rest: Seq<CpuIdFilter>, f: CpuIdFilter, e: CpuidEntry, i: u32)
    ensures
        ({
            let all = rest.push(f);
            &&& (forall|k: int|
                0 <= k < all.len() && meant(#[trigger] all[k], e) ==> bit(all[k].eax_mask, i))
                <==> (forall|k: int|
                0 <= k < rest.len() && meant(#[trigger] rest[k], e) ==> bit(rest[k].eax_mask, i))
                && (meant(f, e) ==> bit(f.eax_mask, i))
            &&& (forall|k: int|
                0 <= k < all.len() && meant(#[trigger] all[k], e) ==> bit(all[k].ebx_mask, i))
                <==> (forall|k: int|
                0 <= k < rest.len() && meant(#[trigger] rest[k], e) ==> bit(rest[k].ebx_mask, i))
                && (meant(f, e) ==> bit(f.ebx_mask, i))
            &&& (forall|k: int|
                0 <= k < all.len() && meant(#[trigger] all[k], e) ==> bit(all[k].ecx_mask, i))
                <==> (forall|k: int|
                0 <= k < rest.len() && meant(#[trigger] rest[k], e) ==> bit(rest[k].ecx_mask, i))
                && (meant(f, e) ==> bit(f.ecx_mask, i))
            &&& (forall|k: int|
                0 <= k < all.len() && meant(#[trigger] all[k], e) ==> bit(all[k].edx_mask, i))
                <==> (forall|k: int|
                0 <= k < rest.len() && meant(#[trigger] rest[k], e) ==> bit(rest[k].edx_mask, i))
                && (meant(f, e) ==> bit(f.edx_mask, i))
        }),
{
    let all = rest.push(f);
    assert(all[rest.len() as int] == f);
    assert forall|k: int| 0 <= k < rest.len() implies #[trigger] rest[k] == all[k] by {}
    assert forall|k: int| 0 <= k < rest.len() implies #[trigger] all[k] == rest[k] by {}
}

/// A bit of an entry is shown to the guest if and only if the host has it and no
/// filter for the entry hides it. The entry stays the one it is.
pub proof fn law_bits_are_shown_or_hidden(filters: Seq<CpuIdFilter>, e: CpuidEntry, i: u32)
    requires
        i < 32,
    ensures
        ({
            let r = cpu_template::filtered(filters, e);
            &&& r.function == e.function
            &&& r.index == e.index
            &&& r.flags == e.flags
            &&& bit(r.eax, i) <==> bit(e.eax, i) && forall|k: int|
                0 <= k < filters.len() && meant(#[trigger] filters[k], e) ==> bit(
                    filters[k].eax_mask,
                    i,
                )
            &&& bit(r.ebx, i) <==> bit(e.ebx, i) && forall|k: int|
                0 <= k < filters.len() && meant(#[trigger] filters[k], e) ==> bit(
                    filters[k].ebx_mask,
                    i,
                )
            &&& bit(r.ecx, i) <==> bit(e.ecx, i) && forall|k: int|
                0 <= k < filters.len() && meant(#[trigger] filters[k], e) ==> bit(
                    filters[k].ecx_mask,
                    i,
                )
            &&& bit(r.edx, i) <==> bit(e.edx, i) && forall|k: int|
                0 <= k < filters.len() && meant(#[trigger] filters[k], e) ==> bit(
                    filters[k].edx_mask,
                    i,
                )
        }),
{
    let m = cpu_template::masks(filters, e.function, e.index);
    lemma_masks(filters, e, i);
    lemma_both(e.eax, m.eax, i);
    lemma_both(e.ebx, m.ebx, i);
    lemma_both(e.ecx, m.ecx, i);
    lemma_both(e.edx, m.edx, i);
}

/// Every filter of a template is read, in order, or the first that cannot be says
/// why.
pub proof fn law_every_filter_is_read(raw: Seq<RawFilter>, n: int)
    requires
        0 <= n <= raw.len(),
    ensures
        match cpu_template::filters_of(raw, n) {
            Ok(f) => {
                &&& f.len() == n
                &&& forall|i: int|
                    0 <= i < n ==> cpu_template::filter_of(#[trigger] raw[i]) == Ok::<
                        CpuIdFilter,
                        Seq<char>,
                    >(f[i])
            },
            Err(t) => exists|i: int|
                0 <= i < n && cpu_template::filter_of(#[trigger] raw[i]) == Err::<
                    CpuIdFilter,
                    Seq<char>,
                >(t) && forall|j: int|
                    0 <= j < i ==> cpu_template::filter_of(#[trigger] raw[j]) is Ok,
        },
    decreases n,
{
    if n > 0 {
        law_every_filter_is_read(raw, n - 1);
        match cpu_template::filters_of(raw, n - 1) {
            Err(_) => {},
            Ok(before) => match cpu_template::filter_of(raw[n - 1]) {
                Err(_) => {},
                Ok(last) => {
                    let f = before.push(last);
                    assert forall|i: int| 0 <= i < n implies cpu_template::filter_of(
                        #[trigger] raw[i],
                    ) == Ok::<CpuIdFilter, Seq<char>>(f[i]) by {
                        if i < n - 1 {
                            assert(f[i] == before[i]);
                        }
                    }
                },
            },
        }
    }
}

/// Whether a number is what a field says, or what it stands for if it says nothing.
pub open spec fn is_field(field: Option<String>, absent: u32, n: u32) -> bool {
    if field is None || field->0@.len() == 0 {
        n == absent
    } else {
        cpu_template::number_of(field->0@) == Ok::<u32, Seq<char>>(n)
    }
}

/// A filter has its numbers from the fields of their names. A mask that is not given
/// hides nothing, and a subleaf that is not given is the first.
pub proof fn law_filter_fields(raw: RawFilter)
    ensures
        cpu_template::filter_of(raw) matches Ok(f) ==> {
            &&& cpu_template::number_of(raw.leaf@) == Ok::<u32, Seq<char>>(f.leaf)
            &&& is_field(raw.subleaf, 0, f.subleaf)
            &&& is_field(raw.eax_mask, 0xffff_ffff, f.eax_mask)
            &&& is_field(raw.ebx_mask, 0xffff_ffff, f.ebx_mask)
            &&& is_field(raw.ecx_mask, 0xffff_ffff, f.ecx_mask)
            &&& is_field(raw.edx_mask, 0xffff_ffff, f.edx_mask)
        },
{
}

/// One hexadecimal digit more multiplies a number by sixteen and adds the digit,
/// unless it then needs more than 32 bits.
pub proof fn law_hex_digits_count(acc: nat, s: Seq<u8>, d: u8)
    requires
        acc <= u32::MAX,
    ensures
        cpu_template::hex_from(acc, s) matches Ok(n) ==> cpu_template::hex_from(acc, s.push(d))
            == if 0x30 <= d <= 0x39 {
            one_more(n, d - 0x30)
        } else if 0x41 <= d <= 0x46 {
            one_more(n, d - 0x41 + 10)
        } else if 0x61 <= d <= 0x66 {
            one_more(n, d - 0x61 + 10)
        } else {
            Err::<u32, HexFault>(HexFault::InvalidDigit)
        },
    decreases s.len(),
{
    let t = s.push(d);
    if s.len() == 0 {
        assert(t.skip(1) =~= Seq::<u8>::empty());
        assert(t[0] == d);
        reveal_with_fuel(cpu_template::hex_from, 2);
    } else {
        assert(t[0] == s[0]);
        assert(t.skip(1) =~= s.skip(1).push(d));
        match cpu_template::hex_digit(s[0]) {
            None => {},
            Some(v) => if acc * 16 + v <= u32::MAX {
                law_hex_digits_count(acc * 16 + v, s.skip(1), d);
            },
        }
    }
}

/// A number with one hexadecimal digit more.
pub open spec fn one_more(n: u32, digit: int) -> Result<u32, HexFault> {
    if 16 * n + digit > u32::MAX {
        Err(HexFault::Overflow)
    } else {
        Ok((16 * n + digit) as u32)
    }
}

/// A mark that the digits are hexadecimal changes nothing of the number.
pub proof fn law_hex_mark(s: Seq<u8>)
    requires
        s.len() > 0,
        !(s.len() >= 2 && s[0] == 0x30 && (s[1] == 0x78 || s[1] == 0x58)),
        s[0] != 0x2b,
        s[0] != 0x2d,
    ensures
        cpu_template::hex_value(seq![0x30u8, 0x78u8] + s) == cpu_template::hex_value(s),
        cpu_template::hex_value(seq![0x30u8, 0x58u8] + s) == cpu_template::hex_value(s),
        cpu_template::hex_value(s) == cpu_template::hex_from(0, s),
{
    assert((seq![0x30u8, 0x78u8] + s).skip(2) =~= s);
    assert((seq![0x30u8, 0x58u8] + s).skip(2) =~= s);
}

} // verus!
