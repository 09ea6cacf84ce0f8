//! Decisions of the application's commands that do not depend on the open project: the
//! compatibility of a project file's schema version, and default file names.

use vstd::prelude::*;
use crate::project_data::{current_version, version_text};
use crate::template::{decimal_string, decimal_text};
use crate::text::{chars_of, concat};

verus! {

/// The text before the first `.`, as `str::split('.').next()` gives it.
pub open spec fn first_component(s: Seq<char>) -> Seq<char>
    decreases s.len(),
{
    if s.len() == 0 || s[0] == '.' {
        Seq::empty()
    } else {
        seq![s[0]] + first_component(s.drop_first())
    }
}

/// Whether `c` is an ASCII decimal digit.
pub open spec fn is_digit(c: char) -> bool {
    48 <= (c as u32) <= 57
}

/// The value of the decimal digit `c`.
pub open spec fn digit_value(c: char) -> int {
    (c as u32) - 48
}

/// The decimal value of a string of digits.
pub open spec fn decimal_value(s: Seq<char>) -> int
    decreases s.len(),
{
    if s.len() == 0 {
        0
    } else {
        10 * decimal_value(s.drop_last()) + digit_value(s.last())
    }
}

/// `s` without a leading `+`.
pub open spec fn without_plus(s: Seq<char>) -> Seq<char> {
    if s.len() > 0 && s[0] == '+' {
        s.drop_first()
    } else {
        s
    }
}

/// Whether every character of `d` is a decimal digit.
pub open spec fn all_digits(d: Seq<char>) -> bool {
    forall|i: int| 0 <= i < d.len() ==> is_digit(#[trigger] d[i])
}

/// The `u32` that `str::parse::<u32>` reads from `s`: an optional `+`, then one or more
/// decimal digits whose value fits in 32 bits.
pub open spec fn parse_u32(s: Seq<char>) -> Option<u32> {
    let d = without_plus(s);
    if d.len() > 0 && all_digits(d) && decimal_value(d) <= u32::MAX {
        Some(decimal_value(d) as u32)
    } else {
        None
    }
}

/// The major version of a semver string: the number before the first `.`.
pub open spec fn major_version(s: Seq<char>) -> Option<u32> {
    parse_u32(first_component(s))
}

proof fn lemma_decimal_value_monotone(s: Seq<char>, j: int)
    requires
        0 <= j <= s.len(),
        forall|i: int| 0 <= i < s.len() ==> is_digit(#[trigger] s[i]),
    ensures
        decimal_value(s.take(j)) <= decimal_value(s),
        0 <= decimal_value(s.take(j)),
    decreases s.len(),
{
    if s.len() > 0 {
        if j == s.len() {
            assert(s.take(j) =~= s);
            lemma_decimal_value_monotone(s.drop_last(), s.len() - 1);
            assert(s.drop_last().take(s.len() - 1) =~= s.drop_last());
        } else {
            assert(s.drop_last().take(j) =~= s.take(j));
            lemma_decimal_value_monotone(s.drop_last(), j);
        }
    } else {
        assert(s.take(j) =~= s);
    }
}

/// The text before the first `.` of `s`.
fn first_component_of(s: &Vec<char>) -> (r: Vec<char>)
    ensures
        r@ == first_component(s@),
{
    let mut r: Vec<char> = Vec::new();
    let mut i: usize = 0;
    assert(s@.skip(0) =~= s@);
    assert(r@ + first_component(s@) =~= first_component(s@));
    while i < s.len() && s[i] != '.'
        invariant
            i <= s.len(),
            first_component(s@) == r@ + first_component(s@.skip(i as int)),
        decreases s.len() - i,
    {
        let ghost rest = s@.skip(i as int);
        assert(rest.drop_first() =~= s@.skip(i + 1));
        r.push(s[i]);
        i += 1;
        assert(first_component(s@) =~= r@ + first_component(s@.skip(i as int)));
    }
    assert(first_component(s@.skip(i as int)) =~= Seq::<char>::empty()) by {
        if i < s.len() {
            assert(s@.skip(i as int)[0] == s@[i as int]);
        }
    }
    assert(r@ + Seq::<char>::empty() =~= r@);
    r
}

/// The `u32` written in `s`, as `str::parse::<u32>` reads it.
pub fn parse_u32_chars(s: &Vec<char>) -> (r: Option<u32>)
    ensures
        r == parse_u32(s@),
{
    let start: usize = if s.len() > 0 && s[0] == '+' {
        1
    } else {
        0
    };
    let ghost d = without_plus(s@);
    assert(d =~= s@.skip(start as int));
    if start == s.len() {
        return None;
    }
    let mut i: usize = start;
    while i < s.len()
        invariant
            start <= i <= s.len(),
            d =~= s@.skip(start as int),
            d == without_plus(s@),
            forall|k: int| 0 <= k < i - start ==> is_digit(#[trigger] d[k]),
        decreases s.len() - i,
    {
        let u = s[i] as u32;
        if !(48 <= u && u <= 57) {
            assert(d[i - start] == s@[i as int]);
            assert(!is_digit(d[i - start]));
            assert(!(forall|q: int| 0 <= q < d.len() ==> is_digit(#[trigger] d[q])));
            return None;
        }
        i += 1;
    }
    let mut acc: u64 = 0;
    let mut k: usize = start;
    while k < s.len()
        invariant
            start <= k <= s.len(),
            d =~= s@.skip(start as int),
            d == without_plus(s@),
            forall|q: int| 0 <= q < d.len() ==> is_digit(#[trigger] d[q]),
            acc == decimal_value(d.take(k - start)),
            acc <= u32::MAX,
        decreases s.len() - k,
    {
        let c = s[k];
        assert(d[k - start] == c);
        assert(is_digit(d[k - start]));
        let dv = (c as u32 - 48) as u64;
        assert(d.take(k - start + 1).drop_last() =~= d.take(k - start));
        assert(d.take(k - start + 1).last() == c);
        let next = acc * 10 + dv;
        if next > 0xffff_ffff {
            proof {
                lemma_decimal_value_monotone(d, k - start + 1);
            }
            return None;
        }
        acc = next;
        k += 1;
    }
    assert(d.take(d.len() as int) =~= d);
    Some(acc as u32)
}

/// The major version written in `s`, if `s` starts with one.
pub fn major_version_of(s: &str) -> (r: Option<u32>)
    ensures
        r == major_version(s@),
{
    let v = chars_of(s);
    let first = first_component_of(&v);
    parse_u32_chars(&first)
}

/// The running version's major component is 0.
pub proof fn lemma_current_major()
    ensures
        major_version(version_text()) == Some(0u32),
{
    reveal_strlit("0.1.0");
    let v = version_text();
    assert(v.len() == 5);
    assert(v[0] == '0' && v[1] == '.');
    assert(first_component(v.drop_first()) =~= Seq::<char>::empty());
    assert(first_component(v) =~= seq!['0']);
    let d = seq!['0'];
    assert(d.drop_last() =~= Seq::<char>::empty());
    assert(('0' as u32) == 48);
    assert(d.last() == '0');
    assert(decimal_value(d.drop_last()) == 0);
    assert(decimal_value(d) == 0);
}

/// The message for a schema version that cannot be read.
pub open spec fn invalid_schema_message(schema: Seq<char>) -> Seq<char> {
    "Invalid schema version format: "@ + schema
}

/// The message for a project file of another major version.
pub open spec fn incompatible_message(schema: Seq<char>) -> Seq<char> {
    "Incompatible project file version: "@ + schema + " (current software version: "@
        + version_text()
        + "). Please update the application or use a compatible project file."@
}

/// Returns `Ok(())` if `file_schema` is compatible with the running version.
///
/// Compatibility compares the **major** version component only: a file created with v1.x can
/// be opened by any v1.y build, but not by v2.x. A schema whose major component is not a
/// number is refused.
pub fn check_schema_compatibility(file_schema: &str) -> (r: Result<(), String>)
    ensures
        match major_version(file_schema@) {
            None => r matches Err(e) && e@ == invalid_schema_message(file_schema@),
            Some(m) => if Some(m) == major_version(version_text()) {
                r is Ok
            } else {
                r matches Err(e) && e@ == incompatible_message(file_schema@)
            },
        },
{
    let current = current_version();
    let file_major = match major_version_of(file_schema) {
        Some(m) => m,
        None => {
            return Err(concat("Invalid schema version format: ", file_schema));
        },
    };
    let current_major = match major_version_of(current) {
        Some(m) => m,
        None => {
            proof {
                lemma_current_major();
            }
            return Err(concat("Invalid current version format: ", current));
        },
    };
    if file_major != current_major {
        let a = concat("Incompatible project file version: ", file_schema);
        let b = concat(a.as_str(), " (current software version: ");
        let c = concat(b.as_str(), current);
        let d = concat(
            c.as_str(),
            "). Please update the application or use a compatible project file.",
        );
        return Err(d);
    }
    Ok(())
}

/// The answer to an imported component list of `count` entries: `Imported <count> lines from
/// CSV`, or the error `CSV file contains no data` when there are none.
pub fn csv_import_message(count: usize) -> (r: Result<String, String>)
    ensures
        count == 0 ==> (r matches Err(e) && e@ == "CSV file contains no data"@),
        count > 0 ==> (r matches Ok(m) && m@ == "Imported "@ + decimal_text(count as nat)
            + " lines from CSV"@),
{
    if count == 0 {
        return Err(String::from_str("CSV file contains no data"));
    }
    let a = concat("Imported ", decimal_string(count).as_str());
    Ok(concat(a.as_str(), " lines from CSV"))
}

/// The file name offered for a new working file: `<pcb_name>.nextbom`.
pub fn nextbom_file_name(pcb_name: &str) -> (r: String)
    ensures
        r@ == pcb_name@ + ".nextbom"@,
{
    concat(pcb_name, ".nextbom")
}

/// The answer to a working file created with `count` entries.
pub fn created_message(count: usize) -> (r: String)
    ensures
        r@ == "Successfully created NextBOM file with "@ + decimal_text(count as nat) + " entries"@,
{
    let a = concat("Successfully created NextBOM file with ", decimal_string(count).as_str());
    concat(a.as_str(), " entries")
}

/// The answer to a resolution of `count` entries.
pub fn resolved_message(count: usize) -> (r: String)
    ensures
        r@ == "Resolved "@ + decimal_text(count as nat) + " entries"@,
{
    let a = concat("Resolved ", decimal_string(count).as_str());
    concat(a.as_str(), " entries")
}

} // verus!
