//! Import names: `dll!function` strings, case folding and prefix tests.
use vstd::prelude::*;

use crate::pe::readers::c_string;

verus! {

/// `dll!function`, the form import names are recorded in.
pub open spec fn qualified_name(dll: Seq<char>, func: Seq<char>) -> Seq<char> {
    dll + seq!['!'] + func
}

/// Builds `dll!function`.
pub fn qualify(dll: &str, func: &str) -> (s: String)
    ensures
        s@ == qualified_name(dll@, func@),
{
    let mut s = String::from_str(dll);
    s.append("!");
    s.append(func);
    proof {
        reveal_strlit("!");
    }
    assert(s@ =~= qualified_name(dll@, func@));
    s
}

/// What `str::to_lowercase` yields for `s` (Unicode lower-case mapping).
pub uninterp spec fn lowercase(s: Seq<char>) -> Seq<char>;

/// The Unicode lower-case form of `s`.
///
/// Calls `str::to_lowercase`; the contract only names its result.
#[verifier::external_body]
fn to_lowercase(s: &str) -> (l: String)
    ensures
        l@ == lowercase(s@),
{
    s.to_lowercase()
}

/// The key under which a resolved import is cached: `dll!function` with both
/// parts lower-cased.
pub open spec fn cache_key(dll: Seq<char>, func: Seq<char>) -> Seq<char> {
    qualified_name(lowercase(dll), lowercase(func))
}

/// Builds the cache key of `dll!function`.
pub fn make_cache_key(dll: &str, func: &str) -> (k: String)
    ensures
        k@ == cache_key(dll@, func@),
{
    let d = to_lowercase(dll);
    let f = to_lowercase(func);
    qualify(d.as_str(), f.as_str())
}

/// `c` has the Unicode `White_Space` property.
pub open spec fn is_white_space(c: char) -> bool {
    let u = c as u32;
    ||| 0x09 <= u <= 0x0D
    ||| u == 0x20
    ||| u == 0x85
    ||| u == 0xA0
    ||| u == 0x1680
    ||| 0x2000 <= u <= 0x200A
    ||| u == 0x2028
    ||| u == 0x2029
    ||| u == 0x202F
    ||| u == 0x205F
    ||| u == 0x3000
}

/// Index of the first character at or after `i` that is not white space
/// (the length when there is none).
pub open spec fn first_non_white(s: Seq<char>, i: int) -> int
    decreases s.len() - i,
{
    if i < 0 || i >= s.len() {
        s.len() as int
    } else if !is_white_space(s[i]) {
        i
    } else {
        first_non_white(s, i + 1)
    }
}

/// One past the index of the last character before `j` that is not white
/// space (zero when there is none).
pub open spec fn end_non_white(s: Seq<char>, j: int) -> int
    decreases j,
{
    if j <= 0 || j > s.len() {
        0
    } else if !is_white_space(s[j - 1]) {
        j
    } else {
        end_non_white(s, j - 1)
    }
}

/// `s` without its leading and trailing white space.
pub open spec fn trimmed(s: Seq<char>) -> Seq<char> {
    let start = first_non_white(s, 0);
    if start >= s.len() {
        Seq::empty()
    } else {
        s.subrange(start, end_non_white(s, s.len() as int))
    }
}

/// `s` without leading and trailing white space.
///
/// Calls `str::trim`, which removes the leading and trailing characters that
/// have the Unicode `White_Space` property.
#[verifier::external_body]
fn trim(s: &str) -> (t: &str)
    ensures
        t@ == trimmed(s@),
{
    s.trim()
}

/// The code of `c` after ASCII lower-casing: `A`..`Z` become `a`..`z`, every
/// other character is unchanged.
pub open spec fn ascii_lower_code(c: char) -> u32 {
    if 'A' <= c && c <= 'Z' {
        (c as u32 + 32) as u32
    } else {
        c as u32
    }
}

/// `prefix` is a prefix of `s` once `s` is ASCII lower-cased.
pub open spec fn has_prefix_ascii_lowered(s: Seq<char>, prefix: Seq<char>) -> bool {
    &&& prefix.len() <= s.len()
    &&& forall|i: int| 0 <= i < prefix.len() ==> ascii_lower_code(s[i]) == prefix[i] as u32
}

/// True if `prefix` is a prefix of `s` ASCII lower-cased.
pub fn starts_with_ascii_lowered(s: &str, prefix: &str) -> (b: bool)
    ensures
        b == has_prefix_ascii_lowered(s@, prefix@),
{
    let n = prefix.unicode_len();
    let m = s.unicode_len();
    if n > m {
        return false;
    }
    let mut i: usize = 0;
    while i < n
        invariant
            n == prefix@.len(),
            m == s@.len(),
            n <= m,
            i <= n,
            forall|j: int| 0 <= j < i ==> ascii_lower_code(s@[j]) == prefix@[j] as u32,
        decreases n - i,
    {
        let c = s.get_char(i);
        let code: u32 = if 'A' <= c && c <= 'Z' {
            c as u32 + 32
        } else {
            c as u32
        };
        if code != prefix.get_char(i) as u32 {
            return false;
        }
        i = i + 1;
    }
    true
}

/// True if `module` names an API-set contract (`api-ms-win-*`, `ext-ms-*`):
/// a virtual DLL name that resolves through backing DLLs rather than a file.
/// The test ignores surrounding white space and ASCII case.
pub open spec fn spec_is_api_set_contract(module: Seq<char>) -> bool {
    let m = trimmed(module);
    has_prefix_ascii_lowered(m, "api-ms-win-"@) || has_prefix_ascii_lowered(m, "ext-ms-"@)
}

/// True if `module` names an API-set contract (`api-ms-win-*`, `ext-ms-*`).
pub fn is_api_set_contract(module: &str) -> (b: bool)
    ensures
        b == spec_is_api_set_contract(module@),
{
    let m = trim(module);
    starts_with_ascii_lowered(m, "api-ms-win-") || starts_with_ascii_lowered(m, "ext-ms-")
}

/// Index of the first `!` in `s` at or after `i`, if any.
pub open spec fn first_bang(s: Seq<char>, i: int) -> Option<int>
    decreases s.len() - i,
{
    if i < 0 || i >= s.len() {
        None
    } else if s[i] == '!' {
        Some(i)
    } else {
        first_bang(s, i + 1)
    }
}

/// The part of `s` after its first `!`; `None` when `s` holds no `!`.
pub open spec fn after_first_bang(s: Seq<char>) -> Option<Seq<char>> {
    match first_bang(s, 0) {
        None => None,
        Some(i) => Some(s.skip(i + 1)),
    }
}

/// The part of `s` after its first `!`, or `None` when there is none.
pub fn split_after_bang(s: &str) -> (r: Option<String>)
    ensures
        r matches Some(t) ==> after_first_bang(s@) == Some(t@),
        r is None ==> after_first_bang(s@) is None,
{
    let n = s.unicode_len();
    let mut i: usize = 0;
    while i < n
        invariant
            n == s@.len(),
            i <= n,
            first_bang(s@, 0) == first_bang(s@, i as int),
        decreases n - i,
    {
        if s.get_char(i) == '!' {
            let rest = s.substring_char(i + 1, n);
            assert(rest@ =~= s@.skip(i + 1));
            return Some(String::from_str(rest));
        }
        i = i + 1;
    }
    None
}

/// One import to bind: the RVA of its IAT slot, the file offset of its
/// function name (past the 2-byte hint), and the name-table value it came from.
#[derive(Clone, Copy, Debug, PartialEq, Eq)]
pub struct ImportSlot {
    pub slot_rva: u32,
    pub name_off: u64,
    pub thunk: u64,
}

/// The function name of `slot`, read from the file image `raw`.
pub open spec fn slot_name(raw: Seq<u8>, slot: ImportSlot) -> Seq<char> {
    c_string(raw, slot.name_off as int)
}

/// The `dll!function` names that binding `slots` of `dll` can record.
pub open spec fn slot_names(raw: Seq<u8>, dll: Seq<char>, slots: Seq<ImportSlot>) -> Set<Seq<char>> {
    Set::new(
        |v: Seq<char>|
            exists|j: int| 0 <= j < slots.len() && v == qualified_name(dll, slot_name(raw, #[trigger] slots[j])),
    )
}

/// `after` is `before` with entries added or replaced (none removed), each
/// new value one of `names`.
pub open spec fn recorded_within<K>(before: Map<K, String>, after: Map<K, String>, names: Set<Seq<char>>) -> bool {
    &&& forall|a: K| #[trigger] before.contains_key(a) ==> after.contains_key(a)
    &&& forall|a: K|
        #[trigger] after.contains_key(a) ==> (before.contains_key(a) && after[a] == before[a]) || names.contains(after[a]@)
}

/// Two successive recordings within subsets of `s` make one recording within `s`.
pub proof fn lemma_recorded_within_trans<K>(
    m0: Map<K, String>,
    m1: Map<K, String>,
    m2: Map<K, String>,
    s1: Set<Seq<char>>,
    s2: Set<Seq<char>>,
    s: Set<Seq<char>>,
)
    requires
        recorded_within(m0, m1, s1),
        recorded_within(m1, m2, s2),
        s1.subset_of(s),
        s2.subset_of(s),
    ensures
        recorded_within(m0, m2, s),
{
    assert forall|a: K| #[trigger] m2.contains_key(a) implies (m0.contains_key(a) && m2[a] == m0[a])
        || s.contains(m2[a]@) by {
        if m1.contains_key(a) && m2[a] == m1[a] {
            if !(m0.contains_key(a) && m1[a] == m0[a]) {
                assert(s1.contains(m1[a]@));
            }
        } else {
            assert(s2.contains(m2[a]@));
        }
    }
}

} // verus!
