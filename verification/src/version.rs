//! The semantic-version data model: a `major.minor.patch` triple with an
//! optional pre-release label, its textual form, and a verified parser and
//! serializer for that form.

use vstd::prelude::*;
use vstd::string::*;
use crate::VersionUpgradeError;

verus! {

/// The optional pre-release suffix of a version.
///
/// `tag_name` is the label text before the final `.`-separated numeric
/// counter. When the label does not end in a canonical numeric counter (for
/// example a bare `beta`), the whole label is held in `tag_name` and
/// `counter` is `None`.
#[derive(Debug)]
pub struct PreReleaseLabel {
    pub tag_name: String,
    pub counter: Option<u64>,
}

/// A semantic version: numeric triple plus optional pre-release label.
#[derive(Debug)]
pub struct SemanticVersion {
    pub major: u64,
    pub minor: u64,
    pub patch: u64,
    pub pre: Option<PreReleaseLabel>,
}

/// Mathematical model of a pre-release label.
pub ghost struct LabelView {
    pub tag_name: Seq<char>,
    pub counter: Option<nat>,
}

/// Mathematical model of a semantic version.
pub ghost struct VersionView {
    pub major: nat,
    pub minor: nat,
    pub patch: nat,
    pub pre: Option<LabelView>,
}

impl View for PreReleaseLabel {
    type V = LabelView;

    open spec fn view(&self) -> LabelView {
        LabelView {
            tag_name: self.tag_name@,
            counter: match self.counter {
                Some(c) => Some(c as nat),
                None => None,
            },
        }
    }
}

impl View for SemanticVersion {
    type V = VersionView;

    open spec fn view(&self) -> VersionView {
        VersionView {
            major: self.major as nat,
            minor: self.minor as nat,
            patch: self.patch as nat,
            pre: match self.pre {
                Some(l) => Some(l@),
                None => None,
            },
        }
    }
}

/// The value of a decimal digit character, or 10 for any other character.
pub open spec fn digit_val(c: char) -> nat {
    if c == '0' { 0 }
    else if c == '1' { 1 }
    else if c == '2' { 2 }
    else if c == '3' { 3 }
    else if c == '4' { 4 }
    else if c == '5' { 5 }
    else if c == '6' { 6 }
    else if c == '7' { 7 }
    else if c == '8' { 8 }
    else if c == '9' { 9 }
    else { 10 }
}

/// Whether `c` is a decimal digit.
pub open spec fn is_digit(c: char) -> bool {
    digit_val(c) < 10
}

/// The digit character for a value below ten.
pub open spec fn digit_char(n: nat) -> char {
    if n == 0 { '0' }
    else if n == 1 { '1' }
    else if n == 2 { '2' }
    else if n == 3 { '3' }
    else if n == 4 { '4' }
    else if n == 5 { '5' }
    else if n == 6 { '6' }
    else if n == 7 { '7' }
    else if n == 8 { '8' }
    else { '9' }
}

/// Whether every character of `s` is a decimal digit.
pub open spec fn all_digits(s: Seq<char>) -> bool {
    forall|i: int| 0 <= i < s.len() ==> is_digit(#[trigger] s[i])
}

/// The numeric value of a digit string.
pub open spec fn dec_val(s: Seq<char>) -> nat
    decreases s.len(),
{
    if s.len() == 0 {
        0
    } else {
        dec_val(s.drop_last()) * 10 + digit_val(s.last())
    }
}

/// The canonical decimal rendering of a natural number.
pub open spec fn dec_str(n: nat) -> Seq<char>
    decreases n,
{
    if n < 10 {
        seq![digit_char(n)]
    } else {
        dec_str(n / 10).push(digit_char(n % 10))
    }
}

/// A canonical decimal numeral: non-empty, digits only, no leading zero.
pub open spec fn is_canonical_dec(s: Seq<char>) -> bool {
    &&& s.len() > 0
    &&& all_digits(s)
    &&& (s[0] == '0' ==> s.len() == 1)
}

/// The numeric value of a version component or counter piece, if the piece
/// is a canonical numeral whose value leaves headroom for one increment.
pub open spec fn spec_num(s: Seq<char>) -> Option<u64> {
    if is_canonical_dec(s) && dec_val(s) < u64::MAX {
        Some(dec_val(s) as u64)
    } else {
        None
    }
}

/// The textual form of a pre-release label.
pub open spec fn spec_serialize_label(l: LabelView) -> Seq<char> {
    match l.counter {
        Some(c) => l.tag_name + seq!['.'] + dec_str(c),
        None => l.tag_name,
    }
}

/// The textual form of a semantic version.
pub open spec fn spec_serialize(v: VersionView) -> Seq<char> {
    let core = dec_str(v.major) + seq!['.'] + dec_str(v.minor) + seq!['.'] + dec_str(v.patch);
    match v.pre {
        Some(l) => core + seq!['-'] + spec_serialize_label(l),
        None => core,
    }
}

/// A character that may occur in a pre-release label.
pub open spec fn valid_pre_char(c: char) -> bool {
    ||| is_digit(c)
    ||| 'a' <= c && c <= 'z'
    ||| 'A' <= c && c <= 'Z'
    ||| c == '-'
    ||| c == '.'
}

/// A well-formed pre-release label text: non-empty dot-separated identifiers
/// over the label alphabet, with no empty identifier.
pub open spec fn valid_label_text(s: Seq<char>) -> bool {
    &&& s.len() > 0
    &&& forall|i: int| 0 <= i < s.len() ==> valid_pre_char(#[trigger] s[i])
    &&& s[0] != '.'
    &&& s[s.len() - 1] != '.'
    &&& forall|i: int| 0 <= i < s.len() - 1 ==> !(#[trigger] s[i] == '.' && s[i + 1] == '.')
}

/// The least index of `c` in `s`, or `s.len()` when `c` does not occur.
pub open spec fn first_idx(s: Seq<char>, c: char) -> int
    decreases s.len(),
{
    if s.len() == 0 {
        0
    } else if s[0] == c {
        0
    } else {
        1 + first_idx(s.subrange(1, s.len() as int), c)
    }
}

/// The greatest index of `c` in `s`, or `-1` when `c` does not occur.
pub open spec fn last_idx(s: Seq<char>, c: char) -> int
    decreases s.len(),
{
    if s.len() == 0 {
        -1
    } else if s.last() == c {
        s.len() - 1
    } else {
        last_idx(s.drop_last(), c)
    }
}

/// The version text before any build-metadata suffix.
pub open spec fn version_core(s: Seq<char>) -> Seq<char> {
    s.take(first_idx(s, '+'))
}

/// The model a pre-release label text parses to, if it is well formed.
pub open spec fn spec_parse_label(s: Seq<char>) -> Option<LabelView> {
    if !valid_label_text(s) {
        None
    } else {
        let j = last_idx(s, '.');
        if j >= 0 && spec_num(s.subrange(j + 1, s.len() as int)) is Some {
            Some(LabelView {
                tag_name: s.take(j),
                counter: Some(spec_num(s.subrange(j + 1, s.len() as int))->Some_0 as nat),
            })
        } else {
            Some(LabelView { tag_name: s, counter: None })
        }
    }
}

/// The model a version text parses to, if it is of the
/// `major.minor.patch[-label][+build]` form.
pub open spec fn spec_parse(s: Seq<char>) -> Option<VersionView> {
    let t = version_core(s);
    let dash = first_idx(t, '-');
    let core = t.take(dash);
    let i1 = first_idx(core, '.');
    let rest = core.subrange(i1 + 1, core.len() as int);
    let i2 = first_idx(rest, '.');
    let p3 = rest.subrange(i2 + 1, rest.len() as int);
    if i1 == core.len() || i2 == rest.len() || first_idx(p3, '.') != p3.len() {
        None
    } else {
        match (spec_num(core.take(i1)), spec_num(rest.take(i2)), spec_num(p3)) {
            (Some(ma), Some(mi), Some(pa)) => {
                if dash == t.len() {
                    Some(VersionView { major: ma as nat, minor: mi as nat, patch: pa as nat, pre: None })
                } else {
                    match spec_parse_label(t.subrange(dash + 1, t.len() as int)) {
                        Some(l) => Some(VersionView {
                            major: ma as nat,
                            minor: mi as nat,
                            patch: pa as nat,
                            pre: Some(l),
                        }),
                        None => None,
                    }
                }
            },
            _ => None,
        }
    }
}

/// A structurally well-formed label model: valid label text as tag name, and
/// an absent counter only where the text indeed ends in no canonical counter.
pub open spec fn wf_label(l: LabelView) -> bool {
    &&& valid_label_text(l.tag_name)
    &&& (l.counter is None && last_idx(l.tag_name, '.') >= 0 ==> spec_num(
        l.tag_name.subrange(last_idx(l.tag_name, '.') + 1, l.tag_name.len() as int),
    ) is None)
}

/// A structurally well-formed version model.
pub open spec fn wf_version(v: VersionView) -> bool {
    match v.pre {
        Some(l) => wf_label(l),
        None => true,
    }
}

proof fn lemma_first_idx_at(s: Seq<char>, c: char, k: int)
    requires
        0 <= k <= s.len(),
        forall|j: int| 0 <= j < k ==> s[j] != c,
        k < s.len() ==> s[k] == c,
    ensures
        first_idx(s, c) == k,
    decreases k,
{
    if k == 0 {
    } else {
        let t = s.subrange(1, s.len() as int);
        assert(forall|j: int| 0 <= j < k - 1 ==> t[j] == s[j + 1] && s[j + 1] != c);
        lemma_first_idx_at(t, c, k - 1);
    }
}

proof fn lemma_first_idx_props(s: Seq<char>, c: char)
    ensures
        0 <= first_idx(s, c) <= s.len(),
        first_idx(s, c) < s.len() ==> s[first_idx(s, c)] == c,
        forall|j: int| 0 <= j < first_idx(s, c) ==> s[j] != c,
    decreases s.len(),
{
    if s.len() == 0 {
    } else if s[0] == c {
    } else {
        let t = s.subrange(1, s.len() as int);
        lemma_first_idx_props(t, c);
        assert(forall|j: int| 1 <= j < first_idx(s, c) ==> s[j] == t[j - 1] && t[j - 1] != c);
    }
}

proof fn lemma_last_idx_at(s: Seq<char>, c: char, k: int)
    requires
        -1 <= k < s.len(),
        forall|j: int| k < j < s.len() ==> s[j] != c,
        k >= 0 ==> s[k] == c,
    ensures
        last_idx(s, c) == k,
    decreases s.len(),
{
    if s.len() == 0 {
    } else if k == s.len() - 1 {
    } else {
        let t = s.drop_last();
        assert(forall|j: int| k < j < t.len() ==> t[j] == s[j] && s[j] != c);
        lemma_last_idx_at(t, c, k);
    }
}

proof fn lemma_last_idx_props(s: Seq<char>, c: char)
    ensures
        -1 <= last_idx(s, c) < s.len(),
        last_idx(s, c) >= 0 ==> s[last_idx(s, c)] == c,
        forall|j: int| last_idx(s, c) < j < s.len() ==> s[j] != c,
    decreases s.len(),
{
    if s.len() == 0 {
    } else if s.last() == c {
    } else {
        let t = s.drop_last();
        lemma_last_idx_props(t, c);
        assert(forall|j: int| last_idx(s, c) < j < s.len() - 1 ==> s[j] == t[j] && t[j] != c);
    }
}

proof fn lemma_dec_val_prefix(s: Seq<char>, i: int)
    requires
        0 <= i <= s.len(),
    ensures
        dec_val(s.take(i)) <= dec_val(s),
    decreases s.len() - i,
{
    if i == s.len() {
        assert(s.take(i) =~= s);
    } else {
        assert(s.take(i + 1).drop_last() =~= s.take(i));
        assert(dec_val(s.take(i + 1)) == dec_val(s.take(i)) * 10 + digit_val(s[i]));
        lemma_dec_val_prefix(s, i + 1);
    }
}

/// Finds the first occurrence of `c` in `s`, or returns the length.
pub(crate) fn find_char(s: &str, c: char) -> (r: usize)
    ensures
        r as int == first_idx(s@, c),
        r <= s@.len(),
{
    let n = s.unicode_len();
    let mut i: usize = 0;
    while i < n
        invariant
            i <= n,
            n == s@.len(),
            forall|j: int| 0 <= j < i ==> s@[j] != c,
        decreases n - i,
    {
        if s.get_char(i) == c {
            proof {
                lemma_first_idx_at(s@, c, i as int);
            }
            return i;
        }
        i = i + 1;
    }
    proof {
        lemma_first_idx_at(s@, c, n as int);
    }
    n
}

/// Finds the last occurrence of `c` in `s`, if any.
pub(crate) fn rfind_char(s: &str, c: char) -> (r: Option<usize>)
    ensures
        match r {
            Some(i) => i as int == last_idx(s@, c) && i < s@.len(),
            None => last_idx(s@, c) == -1,
        },
{
    let mut i = s.unicode_len();
    while i > 0
        invariant
            i <= s@.len(),
            forall|j: int| i <= j < s@.len() ==> s@[j] != c,
        decreases i,
    {
        i = i - 1;
        if s.get_char(i) == c {
            proof {
                lemma_last_idx_at(s@, c, i as int);
            }
            return Some(i);
        }
    }
    proof {
        lemma_last_idx_at(s@, c, -1);
    }
    None
}

/// The value of a digit character, or 10 for any other character.
pub(crate) fn digit_val_exec(c: char) -> (r: u64)
    ensures
        r as nat == digit_val(c),
{
    if c == '0' { 0 }
    else if c == '1' { 1 }
    else if c == '2' { 2 }
    else if c == '3' { 3 }
    else if c == '4' { 4 }
    else if c == '5' { 5 }
    else if c == '6' { 6 }
    else if c == '7' { 7 }
    else if c == '8' { 8 }
    else if c == '9' { 9 }
    else { 10 }
}

/// Parses a canonical decimal numeral whose value leaves headroom for one
/// increment; returns `None` on any other text.
pub(crate) fn parse_num_str(s: &str) -> (r: Option<u64>)
    ensures
        r == spec_num(s@),
{
    let n = s.unicode_len();
    if n == 0 {
        return None;
    }
    let first = s.get_char(0);
    if first == '0' && n > 1 {
        return None;
    }
    let mut val: u64 = 0;
    let mut i: usize = 0;
    while i < n
        invariant
            i <= n,
            n == s@.len(),
            n > 0,
            s@[0] == '0' ==> n == 1,
            all_digits(s@.take(i as int)),
            val as nat == dec_val(s@.take(i as int)),
            val < u64::MAX,
        decreases n - i,
    {
        let c = s.get_char(i);
        let d = digit_val_exec(c);
        if d >= 10 {
            proof {
                assert(!is_digit(s@[i as int]));
            }
            return None;
        }
        proof {
            assert(s@.take(i as int + 1).drop_last() =~= s@.take(i as int));
            assert(dec_val(s@.take(i as int + 1)) == dec_val(s@.take(i as int)) * 10 + digit_val(
                s@[i as int],
            ));
        }
        if val > (u64::MAX - 1 - d) / 10 {
            proof {
                vstd::arithmetic::div_mod::lemma_fundamental_div_mod(
                    (u64::MAX - 1 - d) as int,
                    10,
                );
                assert(val as int * 10 + d as int > u64::MAX - 1);
                lemma_dec_val_prefix(s@, i as int + 1);
                assert(dec_val(s@) >= u64::MAX);
            }
            return None;
        }
        proof {
            vstd::arithmetic::div_mod::lemma_fundamental_div_mod((u64::MAX - 1 - d) as int, 10);
            assert(val as int * 10 + d as int <= u64::MAX - 1);
        }
        val = val * 10 + d;
        i = i + 1;
    }
    proof {
        assert(s@.take(n as int) =~= s@);
    }
    Some(val)
}

/// Whether `c` may occur in a pre-release label.
fn valid_pre_char_exec(c: char) -> (r: bool)
    ensures
        r == valid_pre_char(c),
{
    let d = digit_val_exec(c);
    d < 10 || ('a' <= c && c <= 'z') || ('A' <= c && c <= 'Z') || c == '-' || c == '.'
}

/// Whether `s` is a well-formed pre-release label text.
pub(crate) fn check_label_text(s: &str) -> (r: bool)
    ensures
        r == valid_label_text(s@),
{
    let n = s.unicode_len();
    if n == 0 {
        return false;
    }
    if s.get_char(0) == '.' {
        return false;
    }
    if s.get_char(n - 1) == '.' {
        return false;
    }
    let mut i: usize = 0;
    while i < n
        invariant
            i <= n,
            n == s@.len(),
            n > 0,
            forall|j: int| 0 <= j < i ==> valid_pre_char(#[trigger] s@[j]),
            forall|j: int| 0 <= j && j + 1 < i ==> !(#[trigger] s@[j] == '.' && s@[j + 1] == '.'),
        decreases n - i,
    {
        let c = s.get_char(i);
        if !valid_pre_char_exec(c) {
            return false;
        }
        if i > 0 && c == '.' {
            if s.get_char(i - 1) == '.' {
                return false;
            }
        }
        i = i + 1;
    }
    true
}

/// Parses a pre-release label text into its tag-name and counter parts.
pub(crate) fn parse_label(s: &str) -> (r: Option<PreReleaseLabel>)
    ensures
        match r {
            Some(l) => spec_parse_label(s@) == Some(l@) && (l.counter matches Some(c) ==> c
                < u64::MAX),
            None => spec_parse_label(s@) is None,
        },
{
    if !check_label_text(s) {
        return None;
    }
    let n = s.unicode_len();
    match rfind_char(s, '.') {
        Some(j) => {
            let tail = s.substring_char(j + 1, n);
            match parse_num_str(tail) {
                Some(c) => {
                    let tag = s.substring_char(0, j);
                    Some(PreReleaseLabel { tag_name: String::from_str(tag), counter: Some(c) })
                },
                None => Some(PreReleaseLabel { tag_name: String::from_str(s), counter: None }),
            }
        },
        None => Some(PreReleaseLabel { tag_name: String::from_str(s), counter: None }),
    }
}

/// A label produced by parsing a label text is structurally well formed.
proof fn lemma_parsed_label_wf(s: Seq<char>, l: LabelView)
    requires
        spec_parse_label(s) == Some(l),
    ensures
        wf_label(l),
{
    lemma_last_idx_props(s, '.');
    let j = last_idx(s, '.');
    if j >= 0 && spec_num(s.subrange(j + 1, s.len() as int)) is Some {
        let tag = s.take(j);
        assert(j >= 1) by {
            assert(s[0] != '.');
        }
        assert(valid_label_text(tag)) by {
            assert(forall|i: int| 0 <= i < tag.len() ==> tag[i] == s[i]);
            assert(tag[tag.len() - 1] != '.') by {
                assert(!(s[j - 1] == '.' && s[j] == '.'));
            }
        }
        lemma_last_idx_props(tag, '.');
    } else {
        lemma_last_idx_props(l.tag_name, '.');
    }
}

/// Parses a version text of the `major.minor.patch[-label][+build]` form;
/// any build-metadata suffix is dropped. Returns `InvalidVersionFormat` on
/// any other text.
pub fn parse_version(s: &str) -> (r: Result<SemanticVersion, VersionUpgradeError>)
    ensures
        match r {
            Ok(v) => spec_parse(s@) == Some(v@) && wf_version(v@) && v.major < u64::MAX && v.minor
                < u64::MAX && v.patch < u64::MAX && (v.pre matches Some(l) ==> l.counter
                matches Some(c) ==> c < u64::MAX),
            Err(e) => spec_parse(s@) is None && e == VersionUpgradeError::InvalidVersionFormat,
        },
{
    let plus = find_char(s, '+');
    let t = s.substring_char(0, plus);
    proof {
        assert(t@ =~= version_core(s@));
    }
    let tn = t.unicode_len();
    let dash = find_char(t, '-');
    let core = t.substring_char(0, dash);
    proof {
        assert(core@ =~= version_core(s@).take(first_idx(t@, '-')));
    }
    let cn = core.unicode_len();
    let i1 = find_char(core, '.');
    if i1 == cn {
        return Err(VersionUpgradeError::InvalidVersionFormat);
    }
    let p1 = core.substring_char(0, i1);
    let rest = core.substring_char(i1 + 1, cn);
    let rn = rest.unicode_len();
    let i2 = find_char(rest, '.');
    if i2 == rn {
        return Err(VersionUpgradeError::InvalidVersionFormat);
    }
    let p2 = rest.substring_char(0, i2);
    let p3 = rest.substring_char(i2 + 1, rn);
    if find_char(p3, '.') != p3.unicode_len() {
        return Err(VersionUpgradeError::InvalidVersionFormat);
    }
    let ma = parse_num_str(p1);
    let mi = parse_num_str(p2);
    let pa = parse_num_str(p3);
    if ma.is_none() || mi.is_none() || pa.is_none() {
        return Err(VersionUpgradeError::InvalidVersionFormat);
    }
    let major = ma.unwrap();
    let minor = mi.unwrap();
    let patch = pa.unwrap();
    if dash == tn {
        Ok(SemanticVersion { major, minor, patch, pre: None })
    } else {
        let label = t.substring_char(dash + 1, tn);
        match parse_label(label) {
            Some(l) => {
                proof {
                    lemma_parsed_label_wf(label@, l@);
                }
                Ok(SemanticVersion { major, minor, patch, pre: Some(l) })
            },
            None => Err(VersionUpgradeError::InvalidVersionFormat),
        }
    }
}

proof fn lemma_dec_str_canonical(n: nat)
    ensures
        is_canonical_dec(dec_str(n)),
        dec_str(n)[0] == '0' ==> n == 0,
    decreases n,
{
    if n < 10 {
        assert(is_digit(digit_char(n)));
    } else {
        lemma_dec_str_canonical(n / 10);
        assert(dec_str(n) == dec_str(n / 10).push(digit_char(n % 10)));
        assert(is_digit(digit_char(n % 10)));
        assert(dec_str(n)[0] == dec_str(n / 10)[0]);
        assert(n / 10 != 0);
    }
}

proof fn lemma_dec_val_of_dec_str(n: nat)
    ensures
        dec_val(dec_str(n)) == n,
    decreases n,
{
    if n < 10 {
        assert(seq![digit_char(n)].drop_last() =~= Seq::<char>::empty());
        assert(dec_val(Seq::<char>::empty()) == 0);
        assert(dec_val(seq![digit_char(n)]) == digit_val(digit_char(n)));
    } else {
        lemma_dec_val_of_dec_str(n / 10);
        let a = dec_str(n / 10);
        assert(a.push(digit_char(n % 10)).drop_last() =~= a);
        assert(dec_val(dec_str(n)) == dec_val(a) * 10 + digit_val(digit_char(n % 10)));
        vstd::arithmetic::div_mod::lemma_fundamental_div_mod(n as int, 10);
    }
}

proof fn lemma_dec_val_pos(s: Seq<char>)
    requires
        s.len() > 0,
        all_digits(s),
        s[0] != '0',
    ensures
        dec_val(s) >= 1,
    decreases s.len(),
{
    if s.len() == 1 {
        assert(digit_val(s[0]) >= 1);
    } else {
        let front = s.drop_last();
        lemma_dec_val_pos(front);
        assert(dec_val(s) == dec_val(front) * 10 + digit_val(s.last()));
    }
}

proof fn lemma_dec_str_of_dec_val(s: Seq<char>)
    requires
        is_canonical_dec(s),
    ensures
        dec_str(dec_val(s)) == s,
    decreases s.len(),
{
    if s.len() == 1 {
        assert(s.drop_last() =~= Seq::<char>::empty());
        assert(dec_val(Seq::<char>::empty()) == 0);
        assert(dec_val(s) == digit_val(s[0]));
        assert(digit_char(digit_val(s[0])) == s[0]);
        assert(dec_str(dec_val(s)) =~= s);
    } else {
        let front = s.drop_last();
        let d = digit_val(s.last());
        assert(s[0] != '0');
        assert(front[0] == s[0]);
        assert(is_canonical_dec(front));
        lemma_dec_str_of_dec_val(front);
        lemma_dec_val_pos(front);
        let v = dec_val(front);
        let n = dec_val(s);
        assert(n == v * 10 + d);
        assert(n >= 10) by {
            assert(v * 10 >= 10);
        }
        vstd::arithmetic::div_mod::lemma_fundamental_div_mod_converse(n as int, 10, v as int, d as int);
        assert(n / 10 == v && n % 10 == d);
        assert(dec_str(n) == dec_str(v).push(digit_char(d)));
        assert(digit_char(digit_val(s.last())) == s.last());
        assert(front.push(s.last()) =~= s);
    }
}

proof fn lemma_label_round_trip(s: Seq<char>, l: LabelView)
    requires
        spec_parse_label(s) == Some(l),
    ensures
        spec_serialize_label(l) == s,
{
    lemma_last_idx_props(s, '.');
    let j = last_idx(s, '.');
    if j >= 0 && spec_num(s.subrange(j + 1, s.len() as int)) is Some {
        let tail = s.subrange(j + 1, s.len() as int);
        lemma_dec_str_of_dec_val(tail);
        assert(s[j] == '.');
        assert(spec_serialize_label(l) == s.take(j) + seq!['.'] + dec_str(dec_val(tail)));
        assert(s.take(j) + seq!['.'] + tail =~= s);
    }
}

/// Round trip: any version model obtained by parsing a version text renders
/// back to exactly that text, less any build-metadata suffix. In particular
/// a version with no pre-release label renders to `major.minor.patch`
/// exactly, and a label-bearing one is exact in the `tag.counter` form.
proof fn lemma_split_at(a: Seq<char>, i: int)
    requires
        0 <= i < a.len(),
    ensures
        a =~= a.take(i) + seq![a[i]] + a.subrange(i + 1, a.len() as int),
{
}

#[verifier::rlimit(100)]
pub proof fn lemma_parse_serialize_round_trip(s: Seq<char>, v: VersionView)
    requires
        spec_parse(s) == Some(v),
    ensures
        spec_serialize(v) == version_core(s),
{
    let t = version_core(s);
    let dash = first_idx(t, '-');
    let core = t.take(dash);
    let i1 = first_idx(core, '.');
    let rest = core.subrange(i1 + 1, core.len() as int);
    let i2 = first_idx(rest, '.');
    let p1 = core.take(i1);
    let p2 = rest.take(i2);
    let p3 = rest.subrange(i2 + 1, rest.len() as int);
    lemma_first_idx_props(t, '-');
    lemma_first_idx_props(core, '.');
    lemma_first_idx_props(rest, '.');
    assert(dec_str(v.major) == p1) by {
        lemma_dec_str_of_dec_val(p1);
    }
    assert(dec_str(v.minor) == p2) by {
        lemma_dec_str_of_dec_val(p2);
    }
    assert(dec_str(v.patch) == p3) by {
        lemma_dec_str_of_dec_val(p3);
    }
    assert(core =~= p1 + seq!['.'] + rest) by {
        lemma_split_at(core, i1);
        assert(core[i1] == '.');
    }
    assert(rest =~= p2 + seq!['.'] + p3) by {
        lemma_split_at(rest, i2);
        assert(rest[i2] == '.');
    }
    let corestr = dec_str(v.major) + seq!['.'] + dec_str(v.minor) + seq!['.'] + dec_str(v.patch);
    assert(corestr =~= core);
    if dash == t.len() {
        assert(core =~= t);
    } else {
        let label = t.subrange(dash + 1, t.len() as int);
        assert(spec_serialize_label(v.pre->Some_0) == label) by {
            lemma_label_round_trip(label, v.pre->Some_0);
        }
        assert(t =~= core + seq!['-'] + label) by {
            lemma_split_at(t, dash);
            assert(t[dash] == '-');
        }
    }
}

proof fn lemma_first_idx_absent(x: Seq<char>, c: char)
    requires
        forall|j: int| 0 <= j < x.len() ==> x[j] != c,
    ensures
        first_idx(x, c) == x.len(),
{
    lemma_first_idx_at(x, c, x.len() as int);
}

proof fn lemma_label_serialize_parse(l: LabelView)
    requires
        wf_label(l),
        l.counter matches Some(c) ==> c < u64::MAX,
    ensures
        spec_parse_label(spec_serialize_label(l)) == Some(l),
{
    let tag = l.tag_name;
    match l.counter {
        Some(c) => {
            let num = dec_str(c);
            let lbl = spec_serialize_label(l);
            lemma_dec_str_canonical(c);
            lemma_dec_val_of_dec_str(c);
            assert(lbl =~= tag + seq!['.'] + num);
            assert(lbl[tag.len() as int] == '.');
            assert forall|j: int| 0 <= j < lbl.len() implies valid_pre_char(#[trigger] lbl[j]) by {
                if j < tag.len() {
                    assert(lbl[j] == tag[j]);
                } else if j > tag.len() {
                    assert(lbl[j] == num[j - tag.len() - 1]);
                    assert(is_digit(lbl[j]));
                }
            }
            assert(valid_label_text(lbl)) by {
                assert(lbl[0] == tag[0]);
                assert(lbl[lbl.len() - 1] == num[num.len() - 1]);
                assert(is_digit(num[num.len() - 1]));
                assert forall|j: int| 0 <= j < lbl.len() - 1 implies !(#[trigger] lbl[j] == '.'
                    && lbl[j + 1] == '.') by {
                    if j + 1 < tag.len() {
                        assert(lbl[j] == tag[j] && lbl[j + 1] == tag[j + 1]);
                    } else if j + 1 == tag.len() {
                        assert(lbl[j] == tag[j]);
                        assert(tag[tag.len() - 1] != '.');
                    } else if j >= tag.len() {
                        assert(lbl[j + 1] == num[j - tag.len()]);
                        assert(is_digit(lbl[j + 1]));
                    }
                }
            }
            assert(last_idx(lbl, '.') == tag.len()) by {
                assert forall|j: int| tag.len() < j < lbl.len() implies lbl[j] != '.' by {
                    assert(lbl[j] == num[j - tag.len() - 1]);
                    assert(is_digit(lbl[j]));
                }
                lemma_last_idx_at(lbl, '.', tag.len() as int);
            }
            assert(lbl.subrange(tag.len() as int + 1, lbl.len() as int) =~= num);
            assert(spec_num(num) == Some(c as u64));
            assert(lbl.take(tag.len() as int) =~= tag);
        },
        None => {
            assert(spec_serialize_label(l) == tag);
        },
    }
}

/// Round trip in the other direction: rendering any well-formed version
/// model whose components leave headroom for one increment and parsing the
/// result yields the same model again. Together with
/// `lemma_parse_serialize_round_trip` this makes the parse/serialize round
/// trip idempotent.
#[verifier::rlimit(100)]
pub proof fn lemma_serialize_parse_round_trip(v: VersionView)
    requires
        wf_version(v),
        v.major < u64::MAX,
        v.minor < u64::MAX,
        v.patch < u64::MAX,
        v.pre matches Some(l) ==> l.counter matches Some(c) ==> c < u64::MAX,
    ensures
        spec_parse(spec_serialize(v)) == Some(v),
{
    let a = dec_str(v.major);
    let b = dec_str(v.minor);
    let d = dec_str(v.patch);
    lemma_dec_str_canonical(v.major);
    lemma_dec_str_canonical(v.minor);
    lemma_dec_str_canonical(v.patch);
    lemma_dec_val_of_dec_str(v.major);
    lemma_dec_val_of_dec_str(v.minor);
    lemma_dec_val_of_dec_str(v.patch);
    let core = a + seq!['.'] + b + seq!['.'] + d;
    let s = spec_serialize(v);
    assert forall|j: int| 0 <= j < core.len() implies valid_pre_char(#[trigger] core[j])
        && core[j] != '-' by {
        if j < a.len() {
            assert(core[j] == a[j]);
            assert(is_digit(core[j]));
        } else if j == a.len() {
            assert(core[j] == '.');
        } else if j < a.len() + 1 + b.len() {
            assert(core[j] == b[j - a.len() - 1]);
            assert(is_digit(core[j]));
        } else if j == a.len() + 1 + b.len() {
            assert(core[j] == '.');
        } else {
            assert(core[j] == d[j - a.len() - b.len() - 2]);
            assert(is_digit(core[j]));
        }
    }
    let lbl = match v.pre {
        Some(l) => spec_serialize_label(l),
        None => Seq::<char>::empty(),
    };
    if v.pre is Some {
        lemma_label_serialize_parse(v.pre->Some_0);
        assert(s =~= core + seq!['-'] + lbl);
        assert(valid_label_text(lbl));
    } else {
        assert(s =~= core);
    }
    assert(first_idx(s, '+') == s.len()) by {
        assert forall|j: int| 0 <= j < s.len() implies s[j] != '+' by {
            if j < core.len() {
                assert(s[j] == core[j]);
            } else if j == core.len() {
                assert(s[j] == '-');
            } else {
                assert(s[j] == lbl[j - core.len() - 1]);
                assert(valid_pre_char(s[j]));
            }
        }
        lemma_first_idx_absent(s, '+');
    }
    let t = version_core(s);
    assert(t =~= s);
    let dash = first_idx(t, '-');
    if v.pre is Some {
        assert(dash == core.len()) by {
            assert(t[core.len() as int] == '-');
            lemma_first_idx_at(t, '-', core.len() as int);
        }
    } else {
        assert(dash == core.len()) by {
            lemma_first_idx_absent(t, '-');
        }
    }
    assert(t.take(dash) =~= core);
    let i1 = first_idx(core, '.');
    assert(i1 == a.len()) by {
        assert(core[a.len() as int] == '.');
        lemma_first_idx_at(core, '.', a.len() as int);
    }
    assert(core.take(i1) =~= a);
    let rest = core.subrange(i1 + 1, core.len() as int);
    assert(rest =~= b + seq!['.'] + d);
    let i2 = first_idx(rest, '.');
    assert(i2 == b.len()) by {
        assert forall|j: int| 0 <= j < b.len() implies rest[j] != '.' by {
            assert(rest[j] == b[j]);
            assert(is_digit(rest[j]));
        }
        assert(rest[b.len() as int] == '.');
        lemma_first_idx_at(rest, '.', b.len() as int);
    }
    assert(rest.take(i2) =~= b);
    let p3 = rest.subrange(i2 + 1, rest.len() as int);
    assert(p3 =~= d);
    assert(first_idx(p3, '.') == p3.len()) by {
        assert(forall|j: int| 0 <= j < d.len() ==> is_digit(#[trigger] d[j]));
        lemma_first_idx_absent(p3, '.');
    }
    assert(spec_num(a) == Some(v.major as u64));
    assert(spec_num(b) == Some(v.minor as u64));
    assert(spec_num(d) == Some(v.patch as u64));
    if v.pre is Some {
        assert(t.subrange(dash + 1, t.len() as int) =~= lbl);
    }
}

/// The decimal string of a digit value below ten.
fn digit_str(d: u64) -> (r: &'static str)
    requires
        d < 10,
    ensures
        r@ == seq![digit_char(d as nat)],
{
    let r: &'static str = if d == 0 { "0" }
    else if d == 1 { "1" }
    else if d == 2 { "2" }
    else if d == 3 { "3" }
    else if d == 4 { "4" }
    else if d == 5 { "5" }
    else if d == 6 { "6" }
    else if d == 7 { "7" }
    else if d == 8 { "8" }
    else { "9" };
    proof {
        reveal_strlit("0");
        reveal_strlit("1");
        reveal_strlit("2");
        reveal_strlit("3");
        reveal_strlit("4");
        reveal_strlit("5");
        reveal_strlit("6");
        reveal_strlit("7");
        reveal_strlit("8");
        reveal_strlit("9");
        assert(r@ =~= seq![digit_char(d as nat)]);
    }
    r
}

/// Renders `n` as its canonical decimal numeral.
pub(crate) fn u64_to_string(n: u64) -> (r: String)
    ensures
        r@ == dec_str(n as nat),
    decreases n,
{
    if n < 10 {
        String::from_str(digit_str(n))
    } else {
        let front = u64_to_string(n / 10);
        let r = front.concat(digit_str(n % 10));
        proof {
            assert(r@ =~= dec_str(n as nat));
        }
        r
    }
}

/// Renders a pre-release label in its `tag.counter` textual form.
pub(crate) fn serialize_label(l: &PreReleaseLabel) -> (r: String)
    ensures
        r@ == spec_serialize_label(l@),
{
    match l.counter {
        Some(c) => {
            let mut s = l.tag_name.clone();
            s.append(".");
            let num = u64_to_string(c);
            s.append(num.as_str());
            proof {
                reveal_strlit(".");
                assert(s@ =~= spec_serialize_label(l@));
            }
            s
        },
        None => l.tag_name.clone(),
    }
}

/// Renders a semantic version in its `major.minor.patch[-label]` textual form.
pub fn serialize_version(v: &SemanticVersion) -> (r: String)
    ensures
        r@ == spec_serialize(v@),
{
    let mut s = u64_to_string(v.major);
    s.append(".");
    let mi = u64_to_string(v.minor);
    s.append(mi.as_str());
    s.append(".");
    let pa = u64_to_string(v.patch);
    s.append(pa.as_str());
    match &v.pre {
        Some(l) => {
            s.append("-");
            let ls = serialize_label(l);
            s.append(ls.as_str());
        },
        None => {},
    }
    proof {
        reveal_strlit(".");
        reveal_strlit("-");
        assert(s@ =~= spec_serialize(v@));
    }
    s
}

} // verus!
