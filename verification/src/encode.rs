use vstd::prelude::*;
use crate::archive::header_name_field;
use crate::archive::header_size_field;
use crate::archive::lemma_digit_run_of;
use crate::archive::lemma_pow10_increases;
use crate::archive::pow10;
use crate::archive::size_field_value;
use crate::archive::lemma_kept_members_all;
use crate::archive::spec_kept_members;
use crate::archive::spec_magic;
use crate::archive::spec_parse_archive;
use crate::archive::spec_parse_entries;
use crate::archive::trim_trailing_spaces;
use crate::archive::valid_identifier;
use crate::archive::valid_size_field;
use crate::error::ToolError;
use crate::naming::lemma_decimal_digits_are_digits;
use crate::naming::lemma_object_file_names_distinct;
use crate::naming::spec_object_file_name;
use crate::naming::lemma_decimal_digits_value;
use crate::naming::spec_decimal_digits;

verus! {

/// `n` space bytes.
pub open spec fn spec_spaces(n: int) -> Seq<u8>
    recommends
        n >= 0,
{
    Seq::new(n as nat, |i: int| 0x20u8)
}

/// A header field: the value padded to the field width with trailing spaces.
pub open spec fn spec_padded_field(s: Seq<u8>, width: int) -> Seq<u8>
    recommends
        s.len() <= width,
{
    s + spec_spaces(width - s.len())
}

/// One member as an archive container lays it out: the 16-byte identifier
/// field, 32 bytes of metadata (spaces here; parsing never reads them), the
/// 10-byte decimal size field, the terminator `` `\n ``, the contents, and a
/// newline pad after odd-sized contents.
pub open spec fn spec_encode_member(name: Seq<u8>, contents: Seq<u8>) -> Seq<u8> {
    spec_padded_field(name, 16) + spec_spaces(32) + spec_padded_field(
        spec_decimal_digits(contents.len() as int),
        10,
    ) + seq![0x60u8, 0x0au8] + contents + (if contents.len() % 2 == 1 {
        seq![0x0au8]
    } else {
        Seq::<u8>::empty()
    })
}

/// The member records laid out one after another.
pub open spec fn spec_encode_members(ms: Seq<(Seq<u8>, Seq<u8>)>) -> Seq<u8>
    decreases ms.len(),
{
    if ms.len() == 0 {
        Seq::empty()
    } else {
        spec_encode_member(ms[0].0, ms[0].1) + spec_encode_members(ms.drop_first())
    }
}

/// A whole archive container holding the given members in order.
pub open spec fn spec_encode_archive(ms: Seq<(Seq<u8>, Seq<u8>)>) -> Seq<u8> {
    spec_magic() + spec_encode_members(ms)
}

/// A member the container holds losslessly: a valid identifier of at most 16
/// bytes not ending in a space (trailing spaces could not be told from the
/// field padding), and contents whose size fits the 10-digit size field.
pub open spec fn spec_encodable_member(name: Seq<u8>, contents: Seq<u8>) -> bool {
    &&& valid_identifier(name)
    &&& name.len() <= 16
    &&& name.last() != 0x20
    &&& contents.len() < 10000000000
}

/// Trailing space padding is invisible to trimming.
pub proof fn lemma_trim_padded(s: Seq<u8>, k: int)
    requires
        k >= 0,
    ensures
        trim_trailing_spaces(s + spec_spaces(k)) == trim_trailing_spaces(s),
    decreases k,
{
    if k == 0 {
        assert(s + spec_spaces(0) =~= s);
    } else {
        let padded = s + spec_spaces(k);
        assert(padded.len() == s.len() + k);
        assert(padded.last() == 0x20);
        assert(padded.drop_last() =~= s + spec_spaces(k - 1));
        lemma_trim_padded(s, k - 1);
    }
}

/// A number below `10^k` renders in at most `k` digits.
pub proof fn lemma_decimal_digits_len(n: int, k: int)
    requires
        0 <= n,
        1 <= k,
        n < pow10(k as nat),
    ensures
        spec_decimal_digits(n).len() <= k,
    decreases n,
{
    if n >= 10 {
        lemma_pow10_increases(1, k as nat);
        if k == 1 {
            assert(false);
        }
        assert(pow10(k as nat) == 10 * pow10((k - 1) as nat));
        assert(10 * (n / 10) <= n);
        lemma_decimal_digits_len(n / 10, k - 1);
    }
}

/// Round trip of the member records: parsing a body that lays out the given
/// encodable members, starting where the body starts, yields exactly those
/// members, identifiers and contents intact.
pub proof fn lemma_parse_encoded_entries(data: Seq<u8>, off: int, ms: Seq<(Seq<u8>, Seq<u8>)>)
    requires
        0 <= off <= data.len(),
        data.subrange(off, data.len() as int) == spec_encode_members(ms),
        forall|i: int| 0 <= i < ms.len() ==> spec_encodable_member(#[trigger] ms[i].0, ms[i].1),
    ensures
        spec_parse_entries(data, off) == Ok::<Seq<(Seq<u8>, Seq<u8>)>, ToolError>(ms),
    decreases ms.len(),
{
    let tail = data.subrange(off, data.len() as int);
    if ms.len() == 0 {
        assert(tail.len() == 0);
        assert(off == data.len());
        assert(ms =~= Seq::<(Seq<u8>, Seq<u8>)>::empty());
    } else {
        let name0 = ms[0].0;
        let c0 = ms[0].1;
        assert(spec_encodable_member(name0, c0));
        let em = spec_encode_member(name0, c0);
        let rest = spec_encode_members(ms.drop_first());
        assert(spec_encode_members(ms) == em + rest);
        let sz = c0.len() as int;
        let dd = spec_decimal_digits(sz);
        lemma_decimal_digits_are_digits(sz);
        lemma_decimal_digits_value(sz);
        assert(pow10(10) == 10000000000) by {
            reveal_with_fuel(pow10, 11);
        }
        lemma_decimal_digits_len(sz, 10);
        let a = spec_padded_field(name0, 16);
        let b = spec_spaces(32);
        let c = spec_padded_field(dd, 10);
        let d = seq![0x60u8, 0x0au8];
        let f_pad: Seq<u8> = if sz % 2 == 1 {
            seq![0x0au8]
        } else {
            Seq::<u8>::empty()
        };
        assert(a.len() == 16);
        assert(b.len() == 32);
        assert(c.len() == 10);
        let ab = a + b;
        let abc = ab + c;
        let abcd = abc + d;
        let abcde = abcd + c0;
        assert(em == abcde + f_pad);
        assert(ab.len() == 48 && abc.len() == 58 && abcd.len() == 60 && abcde.len() == 60 + sz);
        assert(em.len() == 60 + sz + f_pad.len());
        assert(tail.len() == em.len() + rest.len());
        assert(forall|t: int| 0 <= t < em.len() ==> #[trigger] tail[t] == em[t]);
        assert(forall|t: int| 0 <= t < tail.len() ==> #[trigger] data[off + t] == tail[t]);
        // the header is present and well-formed
        assert(off < data.len());
        assert(data.len() - off >= 60);
        assert(data[off + 58] == 0x60 && data[off + 59] == 0x0a) by {
            assert(em[58] == abcde[58] && abcde[58] == abcd[58] && abcd[58] == d[0]);
            assert(em[59] == abcde[59] && abcde[59] == abcd[59] && abcd[59] == d[1]);
            assert(data[off + 58] == tail[58] && tail[58] == em[58]);
            assert(data[off + 59] == tail[59] && tail[59] == em[59]);
        }
        // the size field reads back the contents' size
        let sf = header_size_field(data, off);
        assert forall|t: int| 0 <= t < 10 implies sf[t] == c[t] by {
            assert(sf[t] == data[off + 48 + t]);
            assert(data[off + 48 + t] == tail[48 + t]);
            assert(tail[48 + t] == em[48 + t]);
            assert(em[48 + t] == abcde[48 + t]);
            assert(abcde[48 + t] == abcd[48 + t]);
            assert(abcd[48 + t] == abc[48 + t]);
            assert(abc[48 + t] == c[t]);
        }
        assert(sf =~= c);
        assert(forall|t: int| 0 <= t < dd.len() ==> #[trigger] c[t] == dd[t]);
        assert(forall|t: int| dd.len() <= t < 10 ==> #[trigger] c[t] == 0x20);
        lemma_digit_run_of(c, dd.len() as int);
        assert(valid_size_field(sf));
        assert(c.take(dd.len() as int) =~= dd);
        assert(size_field_value(sf) == sz);
        // the contents lie within the container
        assert(data.len() - (off + 60) >= sz);
        // the identifier reads back unchanged
        let nf = header_name_field(data, off);
        assert forall|t: int| 0 <= t < 16 implies nf[t] == a[t] by {
            assert(nf[t] == data[off + t]);
            assert(data[off + t] == tail[t]);
            assert(tail[t] == em[t]);
            assert(em[t] == abcde[t]);
            assert(abcde[t] == abcd[t]);
            assert(abcd[t] == abc[t]);
            assert(abc[t] == ab[t]);
            assert(ab[t] == a[t]);
        }
        assert(nf =~= a);
        lemma_trim_padded(name0, 16 - name0.len());
        assert(trim_trailing_spaces(nf) == name0);
        assert(valid_identifier(name0));
        // the contents read back unchanged
        let content = data.subrange(off + 60, off + 60 + sz);
        assert forall|t: int| 0 <= t < sz implies content[t] == c0[t] by {
            assert(content[t] == data[off + 60 + t]);
            assert(data[off + 60 + t] == tail[60 + t]);
            assert(tail[60 + t] == em[60 + t]);
            assert(em[60 + t] == abcde[60 + t]);
            assert(abcde[60 + t] == c0[t]);
        }
        assert(content =~= c0);
        // parsing resumes exactly at the next record
        let next = if sz % 2 == 1 && off + 60 + sz < data.len() {
            off + 61 + sz
        } else {
            off + 60 + sz
        };
        if sz % 2 == 1 {
            assert(f_pad.len() == 1);
            assert(off + 60 + sz < off + em.len() <= data.len());
            assert(next == off + em.len());
        } else {
            assert(f_pad.len() == 0);
            assert(next == off + em.len());
        }
        let after = data.subrange(next, data.len() as int);
        assert forall|t: int| 0 <= t < rest.len() implies after[t] == rest[t] by {
            assert(after[t] == data[next + t]);
            assert(data[next + t] == tail[em.len() + t]);
            assert(tail[em.len() + t] == rest[t]);
        }
        assert(after =~= rest);
        assert(forall|i: int|
            0 <= i < ms.drop_first().len() ==> spec_encodable_member(
                #[trigger] ms.drop_first()[i].0,
                ms.drop_first()[i].1,
            ));
        lemma_parse_encoded_entries(data, next, ms.drop_first());
        assert(spec_parse_entries(data, off) == Ok::<Seq<(Seq<u8>, Seq<u8>)>, ToolError>(
            seq![(name0, content)] + ms.drop_first(),
        ));
        assert((name0, c0) =~= ms[0]);
        assert((name0, content) =~= ms[0]);
        assert(seq![(name0, c0)] + ms.drop_first() =~= ms);
    }
}

/// Extraction round trip: an archive laying out `N` encodable members, none
/// of them blacklisted, extracts to exactly those `N` members, in order and
/// with every byte of contents intact, and their scratch file names are
/// pairwise distinct.
pub proof fn lemma_extraction_round_trip(ms: Seq<(Seq<u8>, Seq<u8>)>, blacklist: Seq<Seq<u8>>)
    requires
        forall|i: int| 0 <= i < ms.len() ==> spec_encodable_member(#[trigger] ms[i].0, ms[i].1),
        forall|i: int| 0 <= i < ms.len() ==> !blacklist.contains(#[trigger] ms[i].0),
    ensures
        spec_parse_archive(spec_encode_archive(ms)) == Ok::<Seq<(Seq<u8>, Seq<u8>)>, ToolError>(ms),
        spec_kept_members(ms, blacklist) == ms,
        forall|i: int, j: int|
            0 <= i < ms.len() && 0 <= j < ms.len() && i != j ==> spec_object_file_name(
                i,
                #[trigger] ms[i].0,
            ) != spec_object_file_name(j, #[trigger] ms[j].0),
{
    lemma_archive_round_trip(ms);
    lemma_kept_members_all(ms, blacklist);
    assert forall|i: int, j: int|
        0 <= i < ms.len() && 0 <= j < ms.len() && i != j implies spec_object_file_name(
        i,
        #[trigger] ms[i].0,
    ) != spec_object_file_name(j, #[trigger] ms[j].0) by {
        lemma_object_file_names_distinct(i, j, ms[i].0, ms[j].0);
    }
}

/// Round trip of the whole container: a valid archive laying out `N`
/// encodable members parses back to exactly those `N` members, in order,
/// each identifier and each byte of contents intact.
pub proof fn lemma_archive_round_trip(ms: Seq<(Seq<u8>, Seq<u8>)>)
    requires
        forall|i: int| 0 <= i < ms.len() ==> spec_encodable_member(#[trigger] ms[i].0, ms[i].1),
    ensures
        spec_parse_archive(spec_encode_archive(ms)) == Ok::<Seq<(Seq<u8>, Seq<u8>)>, ToolError>(ms),
{
    let data = spec_encode_archive(ms);
    assert(data.len() >= 8);
    assert(data.subrange(0, 8) =~= spec_magic());
    assert(data.subrange(8, data.len() as int) =~= spec_encode_members(ms));
    lemma_parse_encoded_entries(data, 8, ms);
}

} // verus!
