use vstd::prelude::*;
use crate::error::ToolError;

verus! {

/// One member of a static archive: its identifier exactly as stored in the
/// member header (trailing space padding removed), and its raw contents.
#[derive(Debug, PartialEq, Eq)]
pub struct ArchiveMember {
    pub name: Vec<u8>,
    pub data: Vec<u8>,
}

impl View for ArchiveMember {
    type V = (Seq<u8>, Seq<u8>);

    open spec fn view(&self) -> (Seq<u8>, Seq<u8>) {
        (self.name@, self.data@)
    }
}

impl DeepView for ArchiveMember {
    type V = (Seq<u8>, Seq<u8>);

    open spec fn deep_view(&self) -> (Seq<u8>, Seq<u8>) {
        self@
    }
}

/// The eight magic bytes `!<arch>\n` that open an archive container.
pub open spec fn spec_magic() -> Seq<u8> {
    seq![0x21u8, 0x3cu8, 0x61u8, 0x72u8, 0x63u8, 0x68u8, 0x3eu8, 0x0au8]
}

pub open spec fn is_space_byte(b: u8) -> bool {
    b == 0x20
}

pub open spec fn is_decimal_digit(b: u8) -> bool {
    0x30 <= b <= 0x39
}

pub open spec fn is_printable_byte(b: u8) -> bool {
    0x20 <= b <= 0x7e
}

/// A member identifier is valid text: non-empty printable ASCII.
pub open spec fn valid_identifier(name: Seq<u8>) -> bool {
    &&& name.len() > 0
    &&& forall|i: int| 0 <= i < name.len() ==> is_printable_byte(#[trigger] name[i])
}

/// The field with its trailing space padding removed.
pub open spec fn trim_trailing_spaces(s: Seq<u8>) -> Seq<u8>
    decreases s.len(),
{
    if s.len() > 0 && s.last() == 0x20 {
        trim_trailing_spaces(s.drop_last())
    } else {
        s
    }
}

/// How many decimal digits stand at the front of the field.
pub open spec fn digit_run_len(s: Seq<u8>) -> int
    decreases s.len(),
{
    if s.len() == 0 || !is_decimal_digit(s[0]) {
        0
    } else {
        1 + digit_run_len(s.drop_first())
    }
}

/// The number the decimal digit string denotes.
pub open spec fn decimal_value(s: Seq<u8>) -> int
    decreases s.len(),
{
    if s.len() == 0 {
        0
    } else {
        decimal_value(s.drop_last()) * 10 + (s.last() - 0x30)
    }
}

/// A size field is one or more decimal digits padded to the right with spaces.
pub open spec fn valid_size_field(f: Seq<u8>) -> bool {
    &&& digit_run_len(f) >= 1
    &&& forall|i: int| digit_run_len(f) <= i < f.len() ==> is_space_byte(#[trigger] f[i])
}

/// The member size a valid size field denotes.
pub open spec fn size_field_value(f: Seq<u8>) -> int {
    decimal_value(f.take(digit_run_len(f)))
}

/// The 16-byte identifier field of the member header at `off`.
pub open spec fn header_name_field(data: Seq<u8>, off: int) -> Seq<u8> {
    data.subrange(off, off + 16)
}

/// The 10-byte decimal size field of the member header at `off`.
pub open spec fn header_size_field(data: Seq<u8>, off: int) -> Seq<u8> {
    data.subrange(off + 48, off + 58)
}

pub open spec fn pow10(n: nat) -> nat
    decreases n,
{
    if n == 0 {
        1
    } else {
        10 * pow10((n - 1) as nat)
    }
}

pub proof fn lemma_pow10_increases(a: nat, b: nat)
    requires
        a <= b,
    ensures
        pow10(a) <= pow10(b),
    decreases b,
{
    if a < b {
        lemma_pow10_increases(a, (b - 1) as nat);
    }
}

/// The first `digit_run_len` bytes of a field are digits, and the run stops
/// at the first non-digit.
pub proof fn lemma_digit_run_facts(s: Seq<u8>)
    ensures
        0 <= digit_run_len(s) <= s.len(),
        forall|i: int| 0 <= i < digit_run_len(s) ==> is_decimal_digit(#[trigger] s[i]),
        digit_run_len(s) < s.len() ==> !is_decimal_digit(s[digit_run_len(s)]),
    decreases s.len(),
{
    if s.len() > 0 && is_decimal_digit(s[0]) {
        let rest = s.drop_first();
        lemma_digit_run_facts(rest);
        assert forall|i: int| 0 <= i < digit_run_len(s) implies is_decimal_digit(
            #[trigger] s[i],
        ) by {
            if i > 0 {
                assert(s[i] == rest[i - 1]);
            }
        }
        if digit_run_len(s) < s.len() {
            assert(s[digit_run_len(s)] == rest[digit_run_len(rest)]);
        }
    }
}

/// A field whose first `k` bytes are digits and whose byte `k` (if any) is
/// not has a digit run of exactly `k`.
pub proof fn lemma_digit_run_of(s: Seq<u8>, k: int)
    requires
        0 <= k <= s.len(),
        forall|i: int| 0 <= i < k ==> is_decimal_digit(#[trigger] s[i]),
        k == s.len() || !is_decimal_digit(s[k]),
    ensures
        digit_run_len(s) == k,
    decreases k,
{
    if k > 0 {
        lemma_digit_run_of(s.drop_first(), k - 1);
    } else {
        if s.len() > 0 {
            assert(!is_decimal_digit(s[0]));
        }
    }
}

/// A decimal digit string of length `n` denotes a value in `[0, 10^n)`.
pub proof fn lemma_decimal_value_bounds(s: Seq<u8>)
    requires
        forall|i: int| 0 <= i < s.len() ==> is_decimal_digit(#[trigger] s[i]),
    ensures
        0 <= decimal_value(s) < pow10(s.len()),
    decreases s.len(),
{
    if s.len() > 0 {
        assert(forall|i: int|
            0 <= i < s.drop_last().len() ==> is_decimal_digit(#[trigger] s.drop_last()[i]));
        lemma_decimal_value_bounds(s.drop_last());
    }
}

/// What the member records of an archive body denote, reading forward from
/// `off`: each member in archive order, or the first error met. A header is
/// 60 bytes: a 16-byte identifier field, 32 bytes of metadata this tool does
/// not read, a 10-byte decimal size field, and the terminator `` `\n ``; the
/// member contents follow, with one padding byte after odd-sized contents.
pub open spec fn spec_parse_entries(data: Seq<u8>, off: int) -> Result<
    Seq<(Seq<u8>, Seq<u8>)>,
    ToolError,
>
    decreases data.len() - off,
    when 0 <= off <= data.len()
    via spec_parse_entries_decreases
{
    if off == data.len() {
        Ok(Seq::empty())
    } else if data.len() - off < 60 {
        Err(ToolError::ArchiveFormatError)
    } else if data[off + 58] != 0x60 || data[off + 59] != 0x0a {
        Err(ToolError::ArchiveFormatError)
    } else if !valid_size_field(header_size_field(data, off)) {
        Err(ToolError::ArchiveFormatError)
    } else {
        let size = size_field_value(header_size_field(data, off));
        if data.len() - (off + 60) < size {
            Err(ToolError::ArchiveFormatError)
        } else {
            let name = trim_trailing_spaces(header_name_field(data, off));
            if !valid_identifier(name) {
                Err(ToolError::InvalidIdentifierError)
            } else {
                let content = data.subrange(off + 60, off + 60 + size);
                let next = if size % 2 == 1 && off + 60 + size < data.len() {
                    off + 61 + size
                } else {
                    off + 60 + size
                };
                match spec_parse_entries(data, next) {
                    Ok(rest) => Ok(seq![(name, content)] + rest),
                    Err(e) => Err(e),
                }
            }
        }
    }
}

#[via_fn]
proof fn spec_parse_entries_decreases(data: Seq<u8>, off: int) {
    if off < data.len() && data.len() - off >= 60 && valid_size_field(
        header_size_field(data, off),
    ) {
        let f = header_size_field(data, off);
        lemma_digit_run_facts(f);
        assert(forall|i: int|
            0 <= i < f.take(digit_run_len(f)).len() ==> is_decimal_digit(
                #[trigger] f.take(digit_run_len(f))[i],
            ));
        lemma_decimal_value_bounds(f.take(digit_run_len(f)));
    }
}

/// What an archive container denotes: the magic bytes, then the member
/// records in order.
pub open spec fn spec_parse_archive(data: Seq<u8>) -> Result<Seq<(Seq<u8>, Seq<u8>)>, ToolError> {
    if data.len() < 8 || data.subrange(0, 8) != spec_magic() {
        Err(ToolError::ArchiveFormatError)
    } else {
        spec_parse_entries(data, 8)
    }
}

/// Prepending already-parsed members to the outcome of parsing the rest.
pub open spec fn spec_prepend_members(
    front: Seq<(Seq<u8>, Seq<u8>)>,
    rest: Result<Seq<(Seq<u8>, Seq<u8>)>, ToolError>,
) -> Result<Seq<(Seq<u8>, Seq<u8>)>, ToolError> {
    match rest {
        Ok(tail) => Ok(front + tail),
        Err(e) => Err(e),
    }
}

pub(crate) fn byte_at(data: &[u8], i: usize) -> (b: u8)
    requires
        i < data@.len(),
    ensures
        b == data@[i as int],
{
    *vstd::slice::slice_index_get(data, i)
}

/// Parse a static-archive container into its ordered member sequence.
/// Fails with `ArchiveFormatError` exactly when the bytes are not a
/// well-formed container (bad magic, truncated or malformed record), and
/// with `InvalidIdentifierError` exactly when a record is well-formed but
/// its identifier is empty or not printable ASCII.
pub fn parse_archive(data: &[u8]) -> (r: Result<Vec<ArchiveMember>, ToolError>)
    ensures
        (match spec_parse_archive(data@) {
            Ok(ms) => r is Ok && r->Ok_0.deep_view() == ms,
            Err(e) => r == Err::<Vec<ArchiveMember>, ToolError>(e),
        }),
{
    if data.len() < 8 {
        return Err(ToolError::ArchiveFormatError);
    }
    let magic_ok = byte_at(data, 0) == 0x21 && byte_at(data, 1) == 0x3c && byte_at(data, 2) == 0x61
        && byte_at(data, 3) == 0x72 && byte_at(data, 4) == 0x63 && byte_at(data, 5) == 0x68
        && byte_at(data, 6) == 0x3e && byte_at(data, 7) == 0x0a;
    proof {
        let m = data@.subrange(0, 8);
        assert(forall|i: int| 0 <= i < 8 ==> m[i] == data@[i]);
        if magic_ok {
            assert(m =~= spec_magic());
        } else {
            assert(m != spec_magic());
        }
    }
    if !magic_ok {
        return Err(ToolError::ArchiveFormatError);
    }
    let n = data.len();
    let mut members: Vec<ArchiveMember> = Vec::new();
    let mut off: usize = 8;
    proof {
        assert(members.deep_view() + spec_parse_entries(data@, 8)->Ok_0
            =~= spec_parse_entries(data@, 8)->Ok_0);
    }
    while off < n
        invariant
            n == data@.len(),
            8 <= off <= n,
            data@.len() >= 8,
            data@.subrange(0, 8) == spec_magic(),
            spec_parse_archive(data@) == spec_prepend_members(
                members.deep_view(),
                spec_parse_entries(data@, off as int),
            ),
        decreases data@.len() - off,
    {
        let ghost pre = members.deep_view();
        let ghost goff = off as int;
        if n - off < 60 {
            return Err(ToolError::ArchiveFormatError);
        }
        if byte_at(data, off + 58) != 0x60 || byte_at(data, off + 59) != 0x0a {
            return Err(ToolError::ArchiveFormatError);
        }
        // scan the decimal digits of the size field
        let ghost f = header_size_field(data@, goff);
        let mut k: usize = 0;
        let mut scanning = true;
        while scanning && k < 10
            invariant
                k <= 10,
                n == data@.len(),
                goff + 60 <= n,
                f == header_size_field(data@, goff),
                goff == off as int,
                forall|i: int| 0 <= i < k ==> is_decimal_digit(#[trigger] f[i]),
                !scanning ==> k < 10 && !is_decimal_digit(f[k as int]),
            decreases 10 - k + (if scanning { 1int } else { 0int }),
        {
            let b = byte_at(data, off + 48 + k);
            proof {
                assert(f[k as int] == data@[goff + 48 + k]);
            }
            if 0x30 <= b && b <= 0x39 {
                k += 1;
            } else {
                scanning = false;
            }
        }
        proof {
            lemma_digit_run_of(f, k as int);
        }
        if k == 0 {
            return Err(ToolError::ArchiveFormatError);
        }
        // the rest of the size field must be space padding
        let mut padding_ok = true;
        let mut j: usize = k;
        while padding_ok && j < 10
            invariant
                k <= j <= 10,
                n == data@.len(),
                goff + 60 <= n,
                f == header_size_field(data@, goff),
                goff == off as int,
                digit_run_len(f) == k as int,
                1 <= k,
                padding_ok ==> forall|i: int| k <= i < j ==> is_space_byte(#[trigger] f[i]),
                !padding_ok ==> !valid_size_field(f),
            decreases 10 - j + (if padding_ok { 1int } else { 0int }),
        {
            let b = byte_at(data, off + 48 + j);
            proof {
                assert(f[j as int] == data@[goff + 48 + j]);
            }
            if b != 0x20 {
                padding_ok = false;
            } else {
                j += 1;
            }
        }
        if !padding_ok {
            return Err(ToolError::ArchiveFormatError);
        }
        assert(valid_size_field(f));
        // the value the digits denote
        let ghost digits = f.take(k as int);
        proof {
            assert(forall|i: int| 0 <= i < digits.len() ==> is_decimal_digit(#[trigger] digits[i]));
            lemma_decimal_value_bounds(digits);
        }
        let mut size: u64 = 0;
        let mut d: usize = 0;
        while d < k
            invariant
                d <= k <= 10,
                n == data@.len(),
                goff + 60 <= n,
                f == header_size_field(data@, goff),
                goff == off as int,
                digits == f.take(k as int),
                forall|i: int| 0 <= i < k ==> is_decimal_digit(#[trigger] f[i]),
                size == decimal_value(digits.take(d as int)),
                size < pow10(d as nat),
            decreases k - d,
        {
            let b = byte_at(data, off + 48 + d);
            proof {
                assert(f[d as int] == data@[goff + 48 + d]);
                assert(digits.take(d as int + 1).drop_last() =~= digits.take(d as int));
                assert(digits.take(d as int + 1).last() == f[d as int]);
                lemma_pow10_increases(d as nat, 9);
                assert(pow10(9) == 1000000000) by {
                    reveal_with_fuel(pow10, 10);
                }
            }
            size = size * 10 + ((b - 0x30) as u64);
            d += 1;
        }
        proof {
            assert(digits.take(k as int) =~= digits);
            assert(size_field_value(f) == size);
        }
        // the contents must lie within the container
        let body_capacity = n - off - 60;
        if size > body_capacity as u64 {
            return Err(ToolError::ArchiveFormatError);
        }
        let size_us = size as usize;
        // the identifier: the 16-byte name field with space padding removed
        let ghost h = header_name_field(data@, goff);
        proof {
            assert(h.take(16) =~= h);
        }
        let mut name_end: usize = 16;
        while name_end > 0 && byte_at(data, off + name_end - 1) == 0x20
            invariant
                name_end <= 16,
                n == data@.len(),
                goff + 60 <= n,
                h == header_name_field(data@, goff),
                goff == off as int,
                trim_trailing_spaces(h) == trim_trailing_spaces(h.take(name_end as int)),
            decreases name_end,
        {
            proof {
                assert(h.take(name_end as int).last() == data@[goff + name_end - 1]);
                assert(h.take(name_end as int).drop_last() =~= h.take(name_end as int - 1));
            }
            name_end -= 1;
        }
        let ghost name = trim_trailing_spaces(h);
        proof {
            if name_end > 0 {
                assert(h.take(name_end as int).last() == data@[goff + name_end - 1]);
            }
            assert(h.take(name_end as int) =~= name);
        }
        if name_end == 0 {
            return Err(ToolError::InvalidIdentifierError);
        }
        let mut name_ok = true;
        let mut p: usize = 0;
        while name_ok && p < name_end
            invariant
                p <= name_end <= 16,
                1 <= name_end,
                n == data@.len(),
                goff + 60 <= n,
                h == header_name_field(data@, goff),
                goff == off as int,
                name == trim_trailing_spaces(h),
                name == h.take(name_end as int),
                name_ok ==> forall|i: int| 0 <= i < p ==> is_printable_byte(#[trigger] name[i]),
                !name_ok ==> !valid_identifier(name),
            decreases name_end - p + (if name_ok { 1int } else { 0int }),
        {
            let b = byte_at(data, off + p);
            proof {
                assert(name[p as int] == data@[goff + p]);
            }
            if !(0x20 <= b && b <= 0x7e) {
                name_ok = false;
            } else {
                p += 1;
            }
        }
        if !name_ok {
            return Err(ToolError::InvalidIdentifierError);
        }
        assert(valid_identifier(name));
        // materialize the member
        let name_vec = vstd::slice::slice_to_vec(vstd::slice::slice_subrange(data, off, off
            + name_end));
        let content = vstd::slice::slice_to_vec(vstd::slice::slice_subrange(data, off + 60, off
            + 60 + size_us));
        proof {
            assert(name_vec@ =~= name);
            assert(content@ =~= data@.subrange(goff + 60, goff + 60 + size_field_value(f)));
        }
        let mut next = off + 60 + size_us;
        if size_us % 2 == 1 && next < n {
            next = next + 1;
        }
        members.push(ArchiveMember { name: name_vec, data: content });
        proof {
            let entry = (name, data@.subrange(goff + 60, goff + 60 + size_field_value(f)));
            assert(members.deep_view() =~= pre.push(entry));
            match spec_parse_entries(data@, next as int) {
                Ok(rest) => {
                    assert(spec_parse_entries(data@, goff) == Ok::<_, ToolError>(
                        seq![entry] + rest,
                    ));
                    assert(pre + (seq![entry] + rest) =~= pre.push(entry) + rest);
                },
                Err(e) => {
                    assert(spec_parse_entries(data@, goff) == Err::<Seq<(Seq<u8>, Seq<u8>)>,
                        ToolError,
                    >(e));
                },
            }
        }
        off = next;
    }
    proof {
        assert(spec_parse_entries(data@, off as int) == Ok::<_, ToolError>(
            Seq::<(Seq<u8>, Seq<u8>)>::empty(),
        ));
        assert(members.deep_view() + Seq::<(Seq<u8>, Seq<u8>)>::empty() =~= members.deep_view());
    }
    Ok(members)
}

/// The members that survive blacklist filtering: those whose identifier is
/// not on the blacklist, in archive order.
pub open spec fn spec_kept_members(
    ms: Seq<(Seq<u8>, Seq<u8>)>,
    blacklist: Seq<Seq<u8>>,
) -> Seq<(Seq<u8>, Seq<u8>)>
    decreases ms.len(),
{
    if ms.len() == 0 {
        Seq::empty()
    } else {
        let front = spec_kept_members(ms.drop_last(), blacklist);
        if blacklist.contains(ms.last().0) {
            front
        } else {
            front + seq![ms.last()]
        }
    }
}

/// No member that survives filtering bears a blacklisted identifier.
pub proof fn lemma_kept_members_not_blacklisted(
    ms: Seq<(Seq<u8>, Seq<u8>)>,
    blacklist: Seq<Seq<u8>>,
)
    ensures
        forall|i: int|
            0 <= i < spec_kept_members(ms, blacklist).len() ==> !blacklist.contains(
                #[trigger] spec_kept_members(ms, blacklist)[i].0,
            ),
    decreases ms.len(),
{
    if ms.len() > 0 {
        let front = spec_kept_members(ms.drop_last(), blacklist);
        lemma_kept_members_not_blacklisted(ms.drop_last(), blacklist);
        let all = spec_kept_members(ms, blacklist);
        assert forall|i: int| 0 <= i < all.len() implies !blacklist.contains(
            #[trigger] all[i].0,
        ) by {
            if i < front.len() {
                assert(all[i] == front[i]);
            } else {
                assert(all[i] == ms.last());
            }
        }
    }
}

/// Filtering against an empty or irrelevant blacklist keeps every member.
pub proof fn lemma_kept_members_all(ms: Seq<(Seq<u8>, Seq<u8>)>, blacklist: Seq<Seq<u8>>)
    requires
        forall|i: int| 0 <= i < ms.len() ==> !blacklist.contains(#[trigger] ms[i].0),
    ensures
        spec_kept_members(ms, blacklist) == ms,
    decreases ms.len(),
{
    if ms.len() > 0 {
        assert(forall|i: int|
            0 <= i < ms.drop_last().len() ==> !blacklist.contains(#[trigger] ms.drop_last()[i].0));
        lemma_kept_members_all(ms.drop_last(), blacklist);
        assert(spec_kept_members(ms, blacklist) =~= ms);
    } else {
        assert(spec_kept_members(ms, blacklist) =~= ms);
    }
}

/// Do two byte strings hold the same bytes?
fn bytes_equal(a: &Vec<u8>, b: &Vec<u8>) -> (r: bool)
    ensures
        r == (a@ == b@),
{
    if a.len() != b.len() {
        return false;
    }
    let mut i: usize = 0;
    while i < a.len()
        invariant
            i <= a@.len(),
            a@.len() == b@.len(),
            forall|j: int| 0 <= j < i ==> a@[j] == b@[j],
        decreases a@.len() - i,
    {
        let x = byte_at(a.as_slice(), i);
        let y = byte_at(b.as_slice(), i);
        if x != y {
            return false;
        }
        i += 1;
    }
    proof {
        assert(a@ =~= b@);
    }
    true
}

/// Is the identifier on the blacklist?
fn is_blacklisted(name: &Vec<u8>, blacklist: &Vec<Vec<u8>>) -> (r: bool)
    ensures
        r == blacklist.deep_view().contains(name@),
{
    let bl = blacklist.as_slice();
    let mut i: usize = 0;
    while i < bl.len()
        invariant
            i <= bl@.len(),
            bl@ == blacklist@,
            forall|j: int| 0 <= j < i ==> blacklist.deep_view()[j] != name@,
        decreases bl@.len() - i,
    {
        let candidate = vstd::slice::slice_index_get(bl, i);
        if bytes_equal(candidate, name) {
            proof {
                assert(blacklist.deep_view()[i as int] == name@);
            }
            return true;
        }
        proof {
            assert(blacklist.deep_view()[i as int] == bl@[i as int]@);
        }
        i += 1;
    }
    proof {
        if blacklist.deep_view().contains(name@) {
            let j = choose|j: int|
                0 <= j < blacklist.deep_view().len() && blacklist.deep_view()[j] == name@;
            assert(blacklist.deep_view()[j] != name@);
        }
    }
    false
}

/// A fresh copy of a byte string.
fn copy_bytes(v: &Vec<u8>) -> (r: Vec<u8>)
    ensures
        r@ == v@,
{
    vstd::slice::slice_to_vec(v.as_slice())
}

/// Extract the members of a static-archive container, skipping every member
/// whose identifier is on the blacklist. On success the result holds exactly
/// the non-blacklisted members, in archive order, with their contents intact;
/// the errors are those of `parse_archive`, and no extracted member is ever
/// blacklisted.
pub fn extract_members(data: &[u8], blacklist: &Vec<Vec<u8>>) -> (r: Result<
    Vec<ArchiveMember>,
    ToolError,
>)
    ensures
        (match spec_parse_archive(data@) {
            Ok(ms) => r is Ok && r->Ok_0.deep_view() == spec_kept_members(
                ms,
                blacklist.deep_view(),
            ),
            Err(e) => r == Err::<Vec<ArchiveMember>, ToolError>(e),
        }),
        r is Ok ==> forall|i: int|
            0 <= i < r->Ok_0.deep_view().len() ==> !blacklist.deep_view().contains(
                #[trigger] r->Ok_0.deep_view()[i].0,
            ),
{
    let members = match parse_archive(data) {
        Ok(ms) => ms,
        Err(e) => {
            return Err(e);
        },
    };
    let ghost ms = members.deep_view();
    let ghost bl = blacklist.deep_view();
    let mut kept: Vec<ArchiveMember> = Vec::new();
    let mut i: usize = 0;
    proof {
        assert(ms.take(0) =~= Seq::<(Seq<u8>, Seq<u8>)>::empty());
    }
    while i < members.len()
        invariant
            i <= members@.len(),
            ms == members.deep_view(),
            bl == blacklist.deep_view(),
            kept.deep_view() == spec_kept_members(ms.take(i as int), bl),
        decreases members@.len() - i,
    {
        let ghost pre = kept.deep_view();
        let member = vstd::slice::slice_index_get(members.as_slice(), i);
        proof {
            assert(ms[i as int] == members@[i as int].deep_view());
            assert(ms.take(i as int + 1).drop_last() =~= ms.take(i as int));
            assert(ms.take(i as int + 1).last() == ms[i as int]);
        }
        if !is_blacklisted(&member.name, blacklist) {
            kept.push(ArchiveMember { name: copy_bytes(&member.name), data: copy_bytes(
                &member.data,
            ) });
            proof {
                assert(kept.deep_view() =~= pre + seq![ms[i as int]]);
            }
        }
        i += 1;
    }
    proof {
        assert(ms.take(members@.len() as int) =~= ms);
        lemma_kept_members_not_blacklisted(ms, bl);
    }
    Ok(kept)
}

/// The identifiers of the metadata members a GNU-style archive may carry
/// in front of its object files: the symbol table `/` and the long-name
/// table `//`. Neither is an object file, so extraction skips them.
pub fn default_blacklist() -> (r: Vec<Vec<u8>>)
    ensures
        r.deep_view() == seq![seq![0x2fu8], seq![0x2fu8, 0x2fu8]],
{
    let mut symbol_table: Vec<u8> = Vec::new();
    symbol_table.push(0x2f);
    let mut name_table: Vec<u8> = Vec::new();
    name_table.push(0x2f);
    name_table.push(0x2f);
    let ghost st_dv = symbol_table.deep_view();
    let ghost nt_dv = name_table.deep_view();
    proof {
        assert(st_dv =~= seq![0x2fu8]);
        assert(nt_dv =~= seq![0x2fu8, 0x2fu8]);
    }
    let mut r: Vec<Vec<u8>> = Vec::new();
    r.push(symbol_table);
    r.push(name_table);
    proof {
        assert(r@[0].deep_view() == st_dv);
        assert(r@[1].deep_view() == nt_dv);
        assert(r.deep_view() =~= seq![seq![0x2fu8], seq![0x2fu8, 0x2fu8]]);
    }
    r
}

} // verus!
