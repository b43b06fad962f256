use vstd::prelude::*;

use term::terminfo::{parm, TermInfo};

verus! {

/// `term::terminfo::TermInfo`: a terminal's capabilities, read from the terminfo database.
#[verifier::external_type_specification]
#[verifier::external_body]
pub struct ExTermInfo(TermInfo);

/// `term::terminfo::parm::Variables`: the static and dynamic variables that expanding a
/// capability string may read and set.
#[verifier::external_type_specification]
#[verifier::external_body]
pub struct ExVariables(parm::Variables);

/// What a terminal's capability strings are: `TermInfo::strings`, a map from a capability's
/// name to its raw string.
pub uninterp spec fn terminfo_strings(t: TermInfo) -> Map<Seq<char>, Seq<u8>>;

/// The raw string of the named capability in `TermInfo::strings` (a `HashMap::get`, cloned):
/// the string the map holds under that name, or `None` when it holds none.
#[verifier::external_body]
pub(crate) fn terminfo_string(t: &TermInfo, cap: &str) -> (r: Option<Vec<u8>>)
    ensures
        match r {
            Some(v) => terminfo_strings(*t).contains_key(cap@) && terminfo_strings(*t)[cap@] == v@,
            None => !terminfo_strings(*t).contains_key(cap@),
        },
{
    t.strings.get(cap).cloned()
}

/// The bytes of a capability string as an optional sequence.
pub open spec fn opt_bytes(o: Option<Vec<u8>>) -> Option<Seq<u8>> {
    match o {
        Some(v) => Some(v@),
        None => None,
    }
}

/// An ASCII digit.
pub open spec fn is_digit(b: u8) -> bool {
    48 <= b <= 57
}

/// A byte that may follow `%` in a capability string that can be expanded without a panic: not
/// one of the operators `*`, `/`, `m`, and not a variable's `P` or `g`.
pub open spec fn safe_after_percent(b: u8) -> bool {
    b != 42 && b != 47 && b != 109 && b != 80 && b != 103
}

/// A capability string and numbers that `parm::expand` handles without a panic. Each of the
/// conditions rules out one way it panics or overflows:
/// - no `%*`, `%/`, `%m` and no variables: what is left (`%+`, `%-` and the bitwise `%|`, `%&`,
///   `%^`, `%~`) gives a number no larger than the sizes of its operands added, plus one; with at
///   most 2047 bytes, numbers of at most four digits and parameters within 2^19, no result leaves
///   an `i32`, and no division by zero can happen;
/// - no `%p0`, whose parameter index would be `0 - 1`;
/// - no five digits in a row, so no printf width or precision grows past what `format!` takes;
/// - parameters within 2^19, so `%i` cannot overflow.
pub open spec fn expandable(cap: Seq<u8>, params: Seq<i32>) -> bool {
    &&& cap.len() < 2048
    &&& forall|k: int| 0 <= k < cap.len() - 1 && #[trigger] cap[k] == 37 ==> safe_after_percent(cap[k + 1])
    &&& forall|k: int|
        0 <= k < cap.len() - 2 && #[trigger] cap[k] == 37 && cap[k + 1] == 112 ==> cap[k + 2] != 48
    &&& forall|k: int|
        0 <= k <= cap.len() - 5 ==> !(is_digit(#[trigger] cap[k]) && is_digit(cap[k + 1]) && is_digit(
            cap[k + 2],
        ) && is_digit(cap[k + 3]) && is_digit(cap[k + 4]))
    &&& forall|j: int| 0 <= j < params.len() ==> -524288 <= #[trigger] params[j] <= 524288
}

/// Whether the capability string and numbers are `expandable`.
pub fn is_expandable(cap: &Vec<u8>, params: &Vec<i32>) -> (r: bool)
    ensures
        r == expandable(cap@, params@),
{
    if cap.len() >= 2048 {
        return false;
    }
    let n = cap.len();
    let mut k: usize = 0;
    while k < n
        invariant
            n == cap@.len(),
            n < 2048,
            k <= n,
            forall|j: int| 0 <= j < k && j < n - 1 && #[trigger] cap@[j] == 37 ==> safe_after_percent(cap@[j + 1]),
            forall|j: int|
                0 <= j < k && j < n - 2 && #[trigger] cap@[j] == 37 && cap@[j + 1] == 112 ==> cap@[j + 2] != 48,
            forall|j: int|
                0 <= j < k && j <= n - 5 ==> !(is_digit(#[trigger] cap@[j]) && is_digit(cap@[j + 1]) && is_digit(
                    cap@[j + 2],
                ) && is_digit(cap@[j + 3]) && is_digit(cap@[j + 4])),
        decreases n - k,
    {
        if cap[k] == 37 && k + 1 < n {
            let b = cap[k + 1];
            if b == 42 || b == 47 || b == 109 || b == 80 || b == 103 {
                return false;
            }
            if b == 112 && k + 2 < n && cap[k + 2] == 48 {
                return false;
            }
        }
        if k + 4 < n {
            let d0 = cap[k];
            let d1 = cap[k + 1];
            let d2 = cap[k + 2];
            let d3 = cap[k + 3];
            let d4 = cap[k + 4];
            if 48 <= d0 && d0 <= 57 && 48 <= d1 && d1 <= 57 && 48 <= d2 && d2 <= 57 && 48 <= d3 && d3 <= 57 && 48
                <= d4 && d4 <= 57 {
                return false;
            }
        }
        k = k + 1;
    }
    let mut j: usize = 0;
    while j < params.len()
        invariant
            j <= params@.len(),
            forall|i: int| 0 <= i < j ==> -524288 <= #[trigger] params@[i] <= 524288,
        decreases params@.len() - j,
    {
        if params[j] < -524288 || params[j] > 524288 {
            return false;
        }
        j = j + 1;
    }
    true
}

/// What `parm::expand` gives: the expanded bytes, or `None` where it returns an error, and the
/// variables as it leaves them. It is a function of the capability string, the numbers and the
/// variables it is handed.
pub uninterp spec fn expansion(cap: Seq<u8>, params: Seq<i32>, vars: parm::Variables) -> (Option<Seq<u8>>, parm::Variables);

/// `parm::expand` with the numbers `params` as `Param::Number`s: the expanded bytes as
/// `expansion` names them, `None` where it returns an error, and the variables it leaves.
/// `expandable` keeps out the inputs on which it panics.
#[verifier::external_body]
pub(crate) fn expand(cap: &Vec<u8>, params: &Vec<i32>, vars: &mut parm::Variables) -> (r: Option<Vec<u8>>)
    requires
        expandable(cap@, params@),
    ensures
        opt_bytes(r) == expansion(cap@, params@, *old(vars)).0,
        *final(vars) == expansion(cap@, params@, *old(vars)).1,
{
    let params: Vec<parm::Param> = params.iter().map(|n| parm::Param::Number(*n)).collect();
    parm::expand(cap, &params, vars).ok()
}

} // verus!
