//! Recognising release directory names: `MAJOR.MINOR.PATCH`, optionally
//! followed by `-` and a platform suffix.

use vstd::prelude::*;
use vstd::string::*;

use crate::model::VersionKey;

verus! {

/// A decimal digit.
pub open spec fn is_digit(c: char) -> bool {
    '0' <= c && c <= '9'
}

/// The value of a decimal digit.
pub open spec fn digit_value(c: char) -> int {
    c as int - '0' as int
}

/// Every character is a decimal digit.
pub open spec fn all_digits(s: Seq<char>) -> bool {
    forall|i: int| 0 <= i < s.len() ==> is_digit(#[trigger] s[i])
}

/// The number a string of decimal digits denotes.
pub open spec fn digits_value(s: Seq<char>) -> int
    decreases s.len(),
{
    if s.len() == 0 {
        0
    } else {
        digits_value(s.drop_last()) * 10 + digit_value(s.last())
    }
}

/// The pieces of `s` between occurrences of `sep`, as `str::split` yields
/// them: one more piece than there are separators, empty pieces included.
pub open spec fn split_on(s: Seq<char>, sep: char) -> Seq<Seq<char>>
    decreases s.len(),
{
    if s.len() == 0 {
        seq![Seq::<char>::empty()]
    } else {
        let pieces = split_on(s.drop_last(), sep);
        if s.last() == sep {
            pieces.push(Seq::<char>::empty())
        } else {
            pieces.update(pieces.len() - 1, pieces.last().push(s.last()))
        }
    }
}

/// A version component: a non-empty run of digits whose value fits a `u64`.
pub open spec fn valid_component(s: Seq<char>) -> bool {
    s.len() > 0 && all_digits(s) && digits_value(s) <= u64::MAX
}

/// The key of a version string: exactly three dot-separated valid components.
pub open spec fn version_key_of(v: Seq<char>) -> Option<VersionKey> {
    let parts = split_on(v, '.');
    if parts.len() == 3 && valid_component(parts[0]) && valid_component(parts[1])
        && valid_component(parts[2]) {
        Some(
            VersionKey {
                major: digits_value(parts[0]) as u64,
                minor: digits_value(parts[1]) as u64,
                patch: digits_value(parts[2]) as u64,
            },
        )
    } else {
        None
    }
}

/// The part of a directory name before its first `-`, or the whole name.
pub open spec fn before_dash(s: Seq<char>) -> Seq<char>
    decreases s.len(),
{
    if s.len() == 0 {
        s
    } else if s[0] == '-' {
        Seq::<char>::empty()
    } else {
        seq![s[0]] + before_dash(s.drop_first())
    }
}

/// The version a release directory name carries, when it carries one.
pub open spec fn release_version_of(name: Seq<char>) -> Option<Seq<char>> {
    if version_key_of(before_dash(name)) is Some {
        Some(before_dash(name))
    } else {
        None
    }
}

proof fn lemma_split_nonempty(s: Seq<char>, sep: char)
    ensures
        split_on(s, sep).len() >= 1,
    decreases s.len(),
{
    if s.len() > 0 {
        lemma_split_nonempty(s.drop_last(), sep);
    }
}

proof fn lemma_split_len_bound(s: Seq<char>, sep: char)
    ensures
        split_on(s, sep).len() <= s.len() + 1,
    decreases s.len(),
{
    if s.len() > 0 {
        lemma_split_len_bound(s.drop_last(), sep);
        lemma_split_nonempty(s.drop_last(), sep);
    }
}

proof fn lemma_before_dash_prefix(s: Seq<char>, i: int)
    requires
        0 <= i <= s.len(),
        forall|j: int| 0 <= j < i ==> s[j] != '-',
    ensures
        before_dash(s) == s.take(i) + before_dash(s.skip(i)),
    decreases i,
{
    if i > 0 {
        lemma_before_dash_prefix(s, i - 1);
        let rest = s.skip(i - 1);
        assert(rest[0] == s[i - 1]);
        assert(rest.drop_first() =~= s.skip(i));
        assert(s.take(i) =~= s.take(i - 1) + seq![s[i - 1]]);
        assert(s.take(i - 1) + (seq![s[i - 1]] + before_dash(s.skip(i))) =~= s.take(i)
            + before_dash(s.skip(i)));
    } else {
        assert(s.skip(0) =~= s);
        assert(s.take(0) + before_dash(s) =~= before_dash(s));
    }
}

/// The key of a version string, `None` when it is not `MAJOR.MINOR.PATCH`.
pub(crate) fn parse_version_key(version: &str) -> (r: Option<VersionKey>)
    ensures
        r == version_key_of(version@),
{
    let n = version.unicode_len();
    let ghost v = version@;
    let mut dots: usize = 0;
    let mut completed_ok = true;
    let mut current_ok = true;
    let mut current: u64 = 0;
    let mut current_len: usize = 0;
    let mut major: u64 = 0;
    let mut minor: u64 = 0;
    let mut i: usize = 0;
    assert(v.take(0) =~= Seq::<char>::empty());
    while i < n
        invariant
            n == v.len(),
            v == version@,
            i <= n,
            dots + 1 == split_on(v.take(i as int), '.').len(),
            dots <= i,
            current_len <= i,
            completed_ok == (forall|j: int|
                0 <= j < dots ==> valid_component(
                    #[trigger] split_on(v.take(i as int), '.')[j],
                )),
            current_len == split_on(v.take(i as int), '.').last().len(),
            current_ok == (all_digits(split_on(v.take(i as int), '.').last()) && digits_value(
                split_on(v.take(i as int), '.').last(),
            ) <= u64::MAX),
            current_ok ==> current == digits_value(split_on(v.take(i as int), '.').last()),
            dots >= 1 && valid_component(split_on(v.take(i as int), '.')[0]) ==> major
                == digits_value(split_on(v.take(i as int), '.')[0]),
            dots >= 2 && valid_component(split_on(v.take(i as int), '.')[1]) ==> minor
                == digits_value(split_on(v.take(i as int), '.')[1]),
        decreases n - i,
    {
        let c = version.get_char(i);
        let ghost before = split_on(v.take(i as int), '.');
        let ghost after = split_on(v.take(i as int + 1), '.');
        proof {
            assert(v.take(i as int + 1).drop_last() =~= v.take(i as int));
            assert(v.take(i as int + 1).last() == c);
            lemma_split_len_bound(v.take(i as int), '.');
        }
        if c == '.' {
            assert(after == before.push(Seq::<char>::empty()));
            let finished = current_len > 0 && current_ok;
            assert(finished == valid_component(before.last()));
            if dots == 0 && finished {
                major = current;
            }
            if dots == 1 && finished {
                minor = current;
            }
            assert(completed_ok && finished <==> (forall|j: int|
                0 <= j < after.len() - 1 ==> valid_component(#[trigger] after[j]))) by {
                if completed_ok && finished {
                    assert forall|j: int| 0 <= j < after.len() - 1 implies valid_component(
                        #[trigger] after[j],
                    ) by {
                        assert(after[j] == before[j]);
                    }
                }
                if !(completed_ok && finished) {
                    if !finished {
                        assert(after[before.len() - 1] == before.last());
                    } else {
                        let j = choose|j: int|
                            0 <= j < dots && !valid_component(#[trigger] before[j]);
                        assert(after[j] == before[j]);
                    }
                }
            }
            completed_ok = completed_ok && finished;
            dots = dots + 1;
            current = 0;
            current_len = 0;
            current_ok = true;
            assert(after.last() =~= Seq::<char>::empty());
            assert(after[0] == before[0]);
            assert(dots >= 2 ==> after[1] == before[1]);
        } else {
            let ghost piece = before.last().push(c);
            assert(after == before.update(before.len() - 1, piece));
            assert(piece.drop_last() =~= before.last());
            assert(piece.last() == c);
            assert(forall|j: int|
                0 <= j < dots ==> #[trigger] after[j] == before[j]);
            assert(completed_ok == (forall|j: int|
                0 <= j < dots ==> valid_component(#[trigger] after[j]))) by {
                if !completed_ok {
                    let j = choose|j: int| 0 <= j < dots && !valid_component(#[trigger] before[j]);
                    assert(after[j] == before[j]);
                }
            }
            if current_ok && '0' <= c && c <= '9' {
                let d: u64 = (c as u32 - '0' as u32) as u64;
                assert(digit_value(c) == d);
                match current.checked_mul(10) {
                    Some(m) => {
                        match m.checked_add(d) {
                            Some(next) => {
                                current = next;
                            },
                            None => {
                                current_ok = false;
                            },
                        }
                    },
                    None => {
                        current_ok = false;
                        assert(digits_value(piece) > u64::MAX) by (nonlinear_arith)
                            requires
                                digits_value(piece) == current * 10 + d,
                                current * 10 > u64::MAX,
                                d >= 0,
                        ;
                    },
                }
                assert(all_digits(piece)) by {
                    assert forall|j: int| 0 <= j < piece.len() implies is_digit(
                        #[trigger] piece[j],
                    ) by {
                        if j < piece.len() - 1 {
                            assert(piece[j] == before.last()[j]);
                        }
                    }
                }
            } else {
                proof {
                if !('0' <= c && c <= '9') {
                    assert(!is_digit(piece[piece.len() - 1]));
                } else {
                    if all_digits(piece) {
                        assert(all_digits(before.last())) by {
                            assert forall|j: int| 0 <= j < before.last().len() implies is_digit(
                                #[trigger] before.last()[j],
                            ) by {
                                assert(before.last()[j] == piece[j]);
                            }
                        }
                        assert(digits_value(before.last()) > u64::MAX);
                        assert(digits_value(piece) > u64::MAX);
                    }
                }
                }
                current_ok = false;
            }
            current_len = current_len + 1;
        }
        i = i + 1;
    }
    assert(v.take(n as int) =~= v);
    if dots == 2 && completed_ok && current_ok && current_len > 0 {
        Some(VersionKey { major, minor, patch: current })
    } else {
        None
    }
}

/// The version part of a release directory name, when it is a valid version.
pub(crate) fn parse_version(name: &str) -> (r: Option<String>)
    ensures
        match r {
            Some(s) => release_version_of(name@) == Some(s@),
            None => release_version_of(name@) is None,
        },
{
    let n = name.unicode_len();
    let mut i: usize = 0;
    while i < n
        invariant_except_break
            n == name@.len(),
            i <= n,
            forall|j: int| 0 <= j < i ==> name@[j] != '-',
        ensures
            i <= n,
            forall|j: int| 0 <= j < i ==> name@[j] != '-',
            i < n ==> name@[i as int] == '-',
        decreases n - i,
    {
        if name.get_char(i) == '-' {
            break;
        }
        i = i + 1;
    }
    proof {
        lemma_before_dash_prefix(name@, i as int);
        if i < n {
            assert(name@.skip(i as int)[0] == '-');
            assert(before_dash(name@.skip(i as int)) =~= Seq::<char>::empty());
        } else {
            assert(name@.skip(i as int) =~= Seq::<char>::empty());
        }
        assert(name@.take(i as int) + Seq::<char>::empty() =~= name@.take(i as int));
    }
    let version = name.substring_char(0, i);
    match parse_version_key(version) {
        Some(_) => Some(version.to_string()),
        None => None,
    }
}

/// The version and its key for a release directory name.
pub(crate) fn parse_release_name(name: &str) -> (r: Option<(String, VersionKey)>)
    ensures
        match r {
            Some((s, k)) => release_version_of(name@) == Some(s@) && version_key_of(s@) == Some(
                k,
            ),
            None => release_version_of(name@) is None,
        },
{
    match parse_version(name) {
        Some(version) => {
            match parse_version_key(version.as_str()) {
                Some(key) => Some((version, key)),
                None => None,
            }
        },
        None => None,
    }
}

} // verus!
