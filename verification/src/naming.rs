use vstd::prelude::*;
use crate::archive::ArchiveMember;
use crate::archive::decimal_value;
use crate::archive::is_decimal_digit;

verus! {

/// The decimal digit string of a non-negative number, most significant
/// digit first, without leading zeros (a single `0` for zero).
pub open spec fn spec_decimal_digits(n: int) -> Seq<u8>
    decreases n,
    when n >= 0
{
    if n < 10 {
        seq![(0x30 + n) as u8]
    } else {
        spec_decimal_digits(n / 10).push((0x30 + n % 10) as u8)
    }
}

/// The scratch file name of the member at position `index`: the decimal
/// index, an underscore, then the member's own identifier. The index prefix
/// keeps names apart even when members share an identifier.
pub open spec fn spec_object_file_name(index: int, name: Seq<u8>) -> Seq<u8> {
    spec_decimal_digits(index) + seq![0x5fu8] + name
}

/// A rendered number is one or more decimal digits.
pub proof fn lemma_decimal_digits_are_digits(n: int)
    requires
        n >= 0,
    ensures
        spec_decimal_digits(n).len() >= 1,
        forall|i: int|
            0 <= i < spec_decimal_digits(n).len() ==> is_decimal_digit(
                #[trigger] spec_decimal_digits(n)[i],
            ),
    decreases n,
{
    if n >= 10 {
        lemma_decimal_digits_are_digits(n / 10);
        let front = spec_decimal_digits(n / 10);
        assert forall|i: int| 0 <= i < spec_decimal_digits(n).len() implies is_decimal_digit(
            #[trigger] spec_decimal_digits(n)[i],
        ) by {
            if i < front.len() {
                assert(spec_decimal_digits(n)[i] == front[i]);
            }
        }
    }
}

/// Rendering a number and reading the digits back gives the number: the
/// rendering is injective.
pub proof fn lemma_decimal_digits_value(n: int)
    requires
        n >= 0,
    ensures
        decimal_value(spec_decimal_digits(n)) == n,
    decreases n,
{
    if n < 10 {
        let s = spec_decimal_digits(n);
        assert(s.len() == 1);
        assert(s.last() == (0x30 + n) as u8);
        assert(s.drop_last() =~= Seq::<u8>::empty());
        assert(decimal_value(s.drop_last()) == 0);
        assert(decimal_value(s) == decimal_value(s.drop_last()) * 10 + (s.last() - 0x30));
    } else {
        lemma_decimal_digits_value(n / 10);
        let front = spec_decimal_digits(n / 10);
        let s = spec_decimal_digits(n);
        assert(s == front.push((0x30 + n % 10) as u8));
        assert(s.len() == front.len() + 1);
        assert(s.drop_last() =~= front);
        assert(0 <= n % 10 < 10);
        assert(s.last() == (0x30 + n % 10) as u8);
        assert(s.last() - 0x30 == n % 10);
        assert(decimal_value(s) == decimal_value(front) * 10 + (n % 10));
        assert(n / 10 * 10 + n % 10 == n);
    }
}

/// Scratch file names never collide: two distinct member positions give two
/// distinct names, whatever the members are called.
pub proof fn lemma_object_file_names_distinct(i: int, j: int, a: Seq<u8>, b: Seq<u8>)
    requires
        0 <= i,
        0 <= j,
        i != j,
    ensures
        spec_object_file_name(i, a) != spec_object_file_name(j, b),
{
    let di = spec_decimal_digits(i);
    let dj = spec_decimal_digits(j);
    let ni = spec_object_file_name(i, a);
    let nj = spec_object_file_name(j, b);
    lemma_decimal_digits_are_digits(i);
    lemma_decimal_digits_are_digits(j);
    if ni == nj {
        if di.len() == dj.len() {
            assert forall|t: int| 0 <= t < di.len() implies di[t] == dj[t] by {
                assert(ni[t] == di[t]);
                assert(nj[t] == dj[t]);
            }
            assert(di =~= dj);
            lemma_decimal_digits_value(i);
            lemma_decimal_digits_value(j);
        } else if di.len() < dj.len() {
            assert(ni[di.len() as int] == 0x5f);
            assert(nj[di.len() as int] == dj[di.len() as int]);
            assert(is_decimal_digit(dj[di.len() as int]));
        } else {
            assert(nj[dj.len() as int] == 0x5f);
            assert(ni[dj.len() as int] == di[dj.len() as int]);
            assert(is_decimal_digit(di[dj.len() as int]));
        }
    }
}

/// Render a number as decimal digits.
fn decimal_digits(n: u64) -> (r: Vec<u8>)
    ensures
        r@ == spec_decimal_digits(n as int),
    decreases n,
{
    if n < 10 {
        let mut r: Vec<u8> = Vec::new();
        r.push(0x30 + (n as u8));
        proof {
            assert(r@ =~= spec_decimal_digits(n as int));
        }
        r
    } else {
        let mut r = decimal_digits(n / 10);
        r.push(0x30 + ((n % 10) as u8));
        r
    }
}

/// The scratch file names under which the extracted members are written:
/// the member's position, an underscore, then its identifier. Distinct
/// positions give distinct names (`lemma_object_file_names_distinct`), so an
/// archive of N members yields N distinct files.
pub fn object_file_names(members: &Vec<ArchiveMember>) -> (names: Vec<Vec<u8>>)
    ensures
        names.deep_view().len() == members@.len(),
        forall|i: int|
            0 <= i < members@.len() ==> names.deep_view()[i] == spec_object_file_name(
                i,
                members.deep_view()[i].0,
            ),
{
    let mut names: Vec<Vec<u8>> = Vec::new();
    let mut i: usize = 0;
    while i < members.len()
        invariant
            i <= members@.len(),
            names.deep_view().len() == i,
            forall|t: int|
                0 <= t < i ==> names.deep_view()[t] == spec_object_file_name(
                    t,
                    members.deep_view()[t].0,
                ),
        decreases members@.len() - i,
    {
        let member = vstd::slice::slice_index_get(members.as_slice(), i);
        let mut name = decimal_digits(i as u64);
        name.push(0x5f);
        let member_name = member.name.as_slice();
        proof {
            assert(name@ =~= spec_decimal_digits(i as int) + seq![0x5fu8]
                + member_name@.take(0));
        }
        let mut j: usize = 0;
        while j < member_name.len()
            invariant
                j <= member_name@.len(),
                name@ == spec_decimal_digits(i as int) + seq![0x5fu8] + member_name@.take(j as int),
            decreases member_name@.len() - j,
        {
            name.push(crate::archive::byte_at(member_name, j));
            proof {
                assert(name@ =~= spec_decimal_digits(i as int) + seq![0x5fu8]
                    + member_name@.take(j as int + 1));
            }
            j += 1;
        }
        proof {
            assert(member_name@.take(member_name@.len() as int) =~= member_name@);
            assert(member.name@ == members.deep_view()[i as int].0);
            assert(name@ == spec_object_file_name(i as int, members.deep_view()[i as int].0));
        }
        let ghost name_dv = name@;
        let ghost prior = names.deep_view();
        names.push(name);
        proof {
            assert forall|t: int| 0 <= t < i + 1 implies names.deep_view()[t]
                == spec_object_file_name(t, members.deep_view()[t].0) by {
                if t < i {
                    assert(names.deep_view()[t] == prior[t]);
                } else {
                    assert(names.deep_view()[i as int] == name_dv);
                }
            }
        }
        i += 1;
    }
    names
}

} // verus!
