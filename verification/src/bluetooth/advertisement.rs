use vstd::prelude::*;
use vstd::array::array_as_slice;
use vstd::slice::slice_subrange;
use vstd::string::StringSliceAdditionalSpecFns;
use vstd::utf8::{decode_utf8_encode_utf8, valid_utf8};

use crate::utf8::str_from_utf8;

use crate::bluetooth::scanner::ScannerResult;

verus! {

#[verifier::external_type_specification]
#[verifier::external_body]
pub struct ExString<const N: usize>(heapless::String<N>);

/// The bytes of text held by a 32-byte heapless string.
pub uninterp spec fn name_bytes(s: heapless::String<32>) -> Seq<u8>;

/// `heapless::String::new`: an empty string.
#[verifier::external_body]
fn name_new() -> (r: heapless::String<32>)
    ensures
        name_bytes(r) == Seq::<u8>::empty(),
{
    heapless::String::new()
}

/// `heapless::String::push_str`: appends the bytes of `text` when they fit in the
/// 32-byte capacity; otherwise leaves the string as it was and fails.
#[verifier::external_body]
fn name_push_str(s: &mut heapless::String<32>, text: &str) -> (r: Result<(), ()>)
    ensures
        name_bytes(*old(s)).len() + text.spec_bytes().len() <= 32 ==> r is Ok && name_bytes(*final(s))
            == name_bytes(*old(s)) + text.spec_bytes(),
        name_bytes(*old(s)).len() + text.spec_bytes().len() > 32 ==> r is Err && name_bytes(*final(s))
            == name_bytes(*old(s)),
{
    s.push_str(text)
}

/// What a device's advertising data announced: its flags, its complete local name
/// and its transmit power level.
#[derive(Debug, Clone)]
pub struct AdvertisementData {
    pub flags: Option<u8>,
    pub local_name: Option<heapless::String<32>>,
    pub tx_power: Option<i8>,
}

/// The plain content of advertisement data: flags, the bytes of the local name,
/// transmit power.
pub type AdvView = (Option<u8>, Option<Seq<u8>>, Option<i8>);

impl View for AdvertisementData {
    type V = AdvView;

    open spec fn view(&self) -> AdvView {
        (
            self.flags,
            match self.local_name {
                Some(s) => Some(name_bytes(s)),
                None => None,
            },
            self.tx_power,
        )
    }
}

/// The fields of `other` that are present replace those of `base`.
pub open spec fn merged(base: AdvView, other: AdvView) -> AdvView {
    (
        if other.0 is Some { other.0 } else { base.0 },
        if other.1 is Some { other.1 } else { base.1 },
        if other.2 is Some { other.2 } else { base.2 },
    )
}

/// A merge takes every field that the newer data announces and keeps every other
/// field: each field of the result is the newer one when that is present, the older
/// one otherwise; so merging in data that announces nothing changes nothing, and
/// merging the same data twice gives what merging it once gives.
pub proof fn lemma_merge_takes_announced(base: AdvView, other: AdvView)
    ensures
        other.0 is Some ==> merged(base, other).0 == other.0,
        other.1 is Some ==> merged(base, other).1 == other.1,
        other.2 is Some ==> merged(base, other).2 == other.2,
        other.0 is None ==> merged(base, other).0 == base.0,
        other.1 is None ==> merged(base, other).1 == base.1,
        other.2 is None ==> merged(base, other).2 == base.2,
        merged(merged(base, other), other) == merged(base, other),
        merged(base, (None::<u8>, None::<Seq<u8>>, None::<i8>)) == base,
{
}

impl AdvertisementData {
    /// Nothing announced.
    pub fn default() -> (r: Self)
        ensures
            r@ == (None::<u8>, None::<Seq<u8>>, None::<i8>),
    {
        AdvertisementData { flags: None, local_name: None, tx_power: None }
    }

    /// Takes over every field that `other` announces and says whether there was any.
    pub fn merge(&mut self, other: AdvertisementData) -> (changed: bool)
        ensures
            final(self)@ == merged(old(self)@, other@),
            other.flags is Some ==> final(self).flags == other.flags,
            other.flags is None ==> final(self).flags == old(self).flags,
            other.tx_power is Some ==> final(self).tx_power == other.tx_power,
            other.tx_power is None ==> final(self).tx_power == old(self).tx_power,
            other.local_name is Some ==> final(self)@.1 == other@.1,
            other.local_name is None ==> final(self)@.1 == old(self)@.1,
            changed == (other.flags is Some || other.local_name is Some || other.tx_power is Some),
    {
        let mut changed = false;
        if let Some(flags) = other.flags {
            self.flags = Some(flags);
            changed = true;
        }
        if let Some(name) = other.local_name {
            self.local_name = Some(name);
            changed = true;
        }
        if let Some(tx_power) = other.tx_power {
            self.tx_power = Some(tx_power);
            changed = true;
        }
        changed
    }
}

/// Advertising data structure types.
#[derive(Clone, Copy, Debug, PartialEq, Eq, Structural)]
pub enum AdvertisementType {
    Flags,
    ServicesList,
    LocalName,
    TxPower,
    ServiceData,
    ManufacturerData,
}

impl AdvertisementType {
    /// The type's code in advertising data.
    pub open spec fn spec_code(self) -> u8 {
        match self {
            AdvertisementType::Flags => 0x01,
            AdvertisementType::ServicesList => 0x03,
            AdvertisementType::LocalName => 0x09,
            AdvertisementType::TxPower => 0x0A,
            AdvertisementType::ServiceData => 0x16,
            AdvertisementType::ManufacturerData => 0xFF,
        }
    }

    /// The type with the given code; `Err` for codes that are not handled.
    pub fn try_from(value: u8) -> (r: Result<Self, ()>)
        ensures
            r matches Ok(t) ==> t.spec_code() == value,
            r is Err <==> !(value == 0x01 || value == 0x03 || value == 0x09 || value == 0x0A || value == 0x16
                || value == 0xFF),
    {
        if value == 0x01 {
            Ok(AdvertisementType::Flags)
        } else if value == 0x03 {
            Ok(AdvertisementType::ServicesList)
        } else if value == 0x09 {
            Ok(AdvertisementType::LocalName)
        } else if value == 0x0A {
            Ok(AdvertisementType::TxPower)
        } else if value == 0x16 {
            Ok(AdvertisementType::ServiceData)
        } else if value == 0xFF {
            Ok(AdvertisementType::ManufacturerData)
        } else {
            Err(())
        }
    }
}

/// A local name field without its single trailing NUL byte, if it has one.
pub open spec fn strip_nul(value: Seq<u8>) -> Seq<u8> {
    if value.len() > 0 && value.last() == 0 {
        value.drop_last()
    } else {
        value
    }
}

/// The effect of one advertising data structure of type `ad_type` and content `value`:
/// flags and transmit power come from the first byte (when there is one), the local
/// name from the content without a trailing NUL when it is valid UTF-8 of at most 32
/// bytes; other types are ignored.
pub open spec fn apply_ad_structure(acc: AdvView, ad_type: u8, value: Seq<u8>) -> AdvView {
    if ad_type == 0x01 {
        if value.len() > 0 {
            (Some(value[0]), acc.1, acc.2)
        } else {
            acc
        }
    } else if ad_type == 0x09 {
        if valid_utf8(strip_nul(value)) && strip_nul(value).len() <= 32 {
            (acc.0, Some(strip_nul(value)), acc.2)
        } else {
            acc
        }
    } else if ad_type == 0x0A {
        if value.len() > 0 {
            (acc.0, acc.1, Some(value[0] as i8))
        } else {
            acc
        }
    } else {
        acc
    }
}

/// Parses the advertising data `data` from byte `index` on: a sequence of
/// length-prefixed structures (length byte, type byte, content). Parsing stops at a
/// zero length or at a structure that runs past the end.
pub open spec fn parse_from(data: Seq<u8>, index: int, acc: AdvView) -> AdvView
    decreases data.len() - index,
{
    if index < 0 || index >= data.len() {
        acc
    } else {
        let len = data[index] as int;
        let end = index + 1 + len;
        if len == 0 || end > data.len() {
            acc
        } else {
            parse_from(data, end, apply_ad_structure(acc, data[index + 1], data.subrange(index + 2, end)))
        }
    }
}

/// What the advertising data `data` announces.
pub open spec fn parse_advertisement(data: Seq<u8>) -> AdvView {
    parse_from(data, 0, (None, None, None))
}

/// Whether `data` is a sequence of complete advertising data structures: each a
/// non-zero length byte followed by that many bytes.
pub open spec fn well_formed_structures(data: Seq<u8>) -> bool
    decreases data.len(),
{
    data.len() == 0 || (data[0] >= 1 && 1 + data[0] <= data.len() && well_formed_structures(
        data.subrange(1 + data[0], data.len() as int),
    ))
}

proof fn lemma_parse_from_skip(data: Seq<u8>, i: int, j: int, acc: AdvView)
    requires
        0 <= i <= j <= data.len(),
    ensures
        parse_from(data, j, acc) == parse_from(data.subrange(i, data.len() as int), j - i, acc),
    decreases data.len() - j,
{
    let d = data.subrange(i, data.len() as int);
    if j < data.len() {
        let len = data[j] as int;
        let end = j + 1 + len;
        assert(d[j - i] == data[j]);
        if len != 0 && end <= data.len() {
            assert(d[j - i + 1] == data[j + 1]);
            assert(d.subrange(j - i + 2, end - i) =~= data.subrange(j + 2, end));
            lemma_parse_from_skip(data, i, end, apply_ad_structure(acc, data[j + 1], data.subrange(j + 2, end)));
        }
    }
}

proof fn lemma_parse_prefix(p: Seq<u8>, r1: Seq<u8>, r2: Seq<u8>, acc: AdvView)
    requires
        well_formed_structures(p),
        forall|a: AdvView| #[trigger] parse_from(r1, 0, a) == parse_from(r2, 0, a),
    ensures
        parse_from(p + r1, 0, acc) == parse_from(p + r2, 0, acc),
    decreases p.len(),
{
    if p.len() == 0 {
        assert(p + r1 =~= r1);
        assert(p + r2 =~= r2);
    } else {
        let end = 1 + p[0] as int;
        let rest = p.subrange(end, p.len() as int);
        let d1 = p + r1;
        let d2 = p + r2;
        let acc2 = apply_ad_structure(acc, p[1], p.subrange(2, end));
        assert(d1[0] == p[0] && d2[0] == p[0] && d1[1] == p[1] && d2[1] == p[1]);
        assert(d1.subrange(2, end) =~= p.subrange(2, end));
        assert(d2.subrange(2, end) =~= p.subrange(2, end));
        lemma_parse_from_skip(d1, end, end, acc2);
        lemma_parse_from_skip(d2, end, end, acc2);
        assert(d1.subrange(end, d1.len() as int) =~= rest + r1);
        assert(d2.subrange(end, d2.len() as int) =~= rest + r2);
        lemma_parse_prefix(rest, r1, r2, acc2);
    }
}

/// A structure that the parser takes nothing from (any type but flags 0x01, local
/// name 0x09 and transmit power 0x0A) has no effect, wherever it stands among complete
/// structures: parsing `p`, then `s`, then `q` gives what parsing `p` then `q` gives.
pub proof fn lemma_ignored_structure_skipped(p: Seq<u8>, s: Seq<u8>, q: Seq<u8>)
    requires
        well_formed_structures(p),
        s.len() >= 2,
        s[0] == s.len() - 1,
        s[1] != 0x01 && s[1] != 0x09 && s[1] != 0x0A,
    ensures
        parse_advertisement(p + s + q) == parse_advertisement(p + q),
{
    assert forall|a: AdvView| #[trigger] parse_from(s + q, 0, a) == parse_from(q, 0, a) by {
        let d = s + q;
        let end = s.len() as int;
        assert(d[0] == s[0] && d[1] == s[1]);
        assert(apply_ad_structure(a, s[1], d.subrange(2, end)) == a);
        lemma_parse_from_skip(d, end, end, a);
        assert(d.subrange(end, d.len() as int) =~= q);
    }
    lemma_parse_prefix(p, s + q, q, (None, None, None));
    assert(p + s + q =~= p + (s + q));
}

/// Parses the advertising data of a scan result.
pub fn parse_advertisement_data(result: &ScannerResult) -> (r: AdvertisementData)
    requires
        result.data_len <= 32,
    ensures
        r@ == parse_advertisement(result.data@.subrange(0, result.data_len as int)),
{
    let len = result.data_len;
    let all = array_as_slice(&result.data);
    let data = slice_subrange(all, 0, len);
    let ghost d = data@;
    let mut index: usize = 0;
    let mut adv_data = AdvertisementData::default();
    while index < len
        invariant_except_break
            len == d.len(),
            len <= 32,
            d == data@,
            index <= len,
            parse_from(d, index as int, adv_data@) == parse_advertisement(d),
        ensures
            parse_from(d, index as int, adv_data@) == parse_advertisement(d),
            adv_data@ == parse_advertisement(d),
        decreases len - index,
    {
        let l = data[index] as usize;
        if l == 0 {
            break;
        }
        let end = index + 1 + l;
        if end > len {
            break;
        }
        let ad_type = data[index + 1];
        let ghost acc = adv_data@;
        let ghost value = d.subrange(index + 2, end as int);
        match AdvertisementType::try_from(ad_type) {
            Ok(AdvertisementType::Flags) => {
                if index + 2 < end {
                    adv_data.flags = Some(data[index + 2]);
                }
            },
            Ok(AdvertisementType::LocalName) => {
                let mut stop = end;
                if index + 2 < end && data[end - 1] == 0 {
                    stop = end - 1;
                }
                let v = slice_subrange(data, index + 2, stop);
                proof {
                    assert(v@ =~= strip_nul(value));
                }
                if let Some(name) = str_from_utf8(v) {
                    proof {
                        decode_utf8_encode_utf8(v@);
                    }
                    let mut local_name = name_new();
                    if name_push_str(&mut local_name, name).is_ok() {
                        adv_data.local_name = Some(local_name);
                    }
                }
            },
            Ok(AdvertisementType::TxPower) => {
                if index + 2 < end {
                    adv_data.tx_power = Some(data[index + 2] as i8);
                }
            },
            _ => {},
        }
        proof {
            assert(adv_data@ == apply_ad_structure(acc, ad_type, value));
        }
        index = end;
    }
    adv_data
}

} // verus!
