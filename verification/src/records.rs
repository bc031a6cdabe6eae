use vstd::prelude::*;
use std::collections::HashMap;
use vstd::string::StrSliceExecFns;
use vstd::string::StringExecFns;

verus! {

/// Declares the indexmap crate's insertion-ordered map so the voice
/// records can hold one; the library never looks inside it.
#[verifier::external_type_specification]
#[verifier::external_body]
#[verifier::reject_recursive_types(K)]
#[verifier::reject_recursive_types(V)]
#[verifier::reject_recursive_types(S)]
pub struct ExIndexMap<K, V, S>(indexmap::IndexMap<K, V, S>);

/// An operator profile record.
#[derive(Debug)]
pub struct CharFile {
    pub name: String,
    pub sex: String,
    pub combat_experience: Option<String>,
    pub birth_place: Option<String>,
    pub date_of_birth: Option<String>,
    pub race: Option<String>,
    pub height: Option<String>,
    pub infection_status: Option<String>,
    pub cell_originium_assimilation: Option<String>,
    pub blood_originium_crystal_density: Option<String>,
    pub phy: Option<String>,
    pub flex: Option<String>,
    pub tolerance: Option<String>,
    pub plan: Option<String>,
    pub skill: Option<String>,
    pub adapt: Option<String>,
}

/// A vehicle profile record.
#[derive(Debug)]
pub struct CarFile {
    pub designation: String,
    pub assigned_gender: String,
    pub production_time: String,
    pub manufacturer: String,
    pub origin: String,
    pub production_date: String,
    pub height: String,
    pub weight: String,
    pub maintenance_report: String,
    pub top_speed: String,
    pub climbing_ability: String,
    pub braking: String,
    pub mobility: String,
    pub endurance: String,
    pub structural_stability: String,
}

/// An operator combat data record.
#[derive(Debug)]
pub struct CharData {
    pub name: String,
    pub hp: String,
    pub atk: String,
    pub def: String,
    pub res: String,
    pub re_deploy: String,
    pub cost: String,
    pub block: String,
    pub atk_speed: String,
    pub trust_hp_atk_def: String,
}

/// An operator catalog record.
#[derive(Debug)]
pub struct CharInfo {
    pub name: String,
    pub en: String,
    pub profession: String,
    pub sub_profession: String,
    pub position: String,
    pub rarity: u8,
    pub logo: String,
    pub tag: String,
    pub skin1name: Option<String>,
    pub skin2name: Option<String>,
    pub skin3name: Option<String>,
    pub skin4name: Option<String>,
    pub skin5name: Option<String>,
    pub skin6name: Option<String>,
    pub skin7name: Option<String>,
    pub skin8name: Option<String>,
    pub skin9name: Option<String>,
    pub skin10name: Option<String>,
}

/// How and when an operator was obtained.
#[derive(Debug)]
pub struct CharObtain {
    pub name: String,
    pub obtain_date: (u16, u8, u8),
    pub obtain_way: String,
    pub get_by: String,
}

/// The merged operator record.
#[derive(Debug)]
pub struct Char {
    pub name: String,
    pub sex: Option<String>,
    pub combat_experience: Option<String>,
    pub birth_place: Option<String>,
    pub date_of_birth: Option<String>,
    pub race: Option<String>,
    pub height: Option<String>,
    pub infection_status: Option<String>,
    pub cell_originium_assimilation: Option<String>,
    pub blood_originium_crystal_density: Option<String>,
    pub phy: Option<String>,
    pub flex: Option<String>,
    pub tolerance: Option<String>,
    pub plan: Option<String>,
    pub skill: Option<String>,
    pub adapt: Option<String>,
    pub hp: Option<String>,
    pub atk: Option<String>,
    pub def: Option<String>,
    pub res: Option<String>,
    pub re_deploy: Option<String>,
    pub cost: Option<String>,
    pub block: Option<String>,
    pub atk_speed: Option<String>,
    pub trust_hp_atk_def: Option<String>,
    pub en: Option<String>,
    pub profession: Option<String>,
    pub sub_profession: Option<String>,
    pub position: Option<String>,
    pub rarity: Option<u8>,
    pub logo: Option<String>,
    pub tag: Option<String>,
    pub skin1name: Option<String>,
    pub skin2name: Option<String>,
    pub skin3name: Option<String>,
    pub skin4name: Option<String>,
    pub skin5name: Option<String>,
    pub skin6name: Option<String>,
    pub skin7name: Option<String>,
    pub skin8name: Option<String>,
    pub skin9name: Option<String>,
    pub skin10name: Option<String>,
    pub obtain_date: Option<(u16, u8, u8)>,
    pub obtain_way: Option<String>,
    pub get_by: Option<String>,
}

/// An operator record-memory entry.
#[derive(Debug)]
pub struct Memory {
    pub name: String,
    pub story_set_name: String,
    pub story_intro: String,
    pub story_txt: String,
}

/// An operator module record.
#[derive(Debug)]
pub struct Mod {
    pub name: String,
    pub module_name: String,
    pub module_count: String,
    pub kind: String,
    pub mission1: Option<String>,
    pub mission2: Option<String>,
    pub mission2_operation: Option<String>,
    pub traitadd: bool,
    pub level1_trait: Option<String>,
    pub talent2: Option<String>,
    pub talent3: Option<String>,
    pub hp: String,
    pub atk: String,
    pub def: String,
    pub res: String,
    pub time: String,
    pub cost: String,
    pub block: String,
    pub atkspd: String,
    pub other: String,
}

/// A skill mastery recommendation.
#[derive(Debug)]
pub struct Mastery {
    pub name: String,
    pub mastery: String,
    pub role: String,
}

/// An artist and their works.
#[derive(Debug)]
pub struct Painter {
    pub name: String,
    pub opus: Vec<String>,
}

/// A group of artists of one kind.
#[derive(Debug)]
pub struct Author {
    pub kind: String,
    pub intro: String,
    pub content: Vec<Painter>,
}

/// An announced preview entry.
#[derive(Debug)]
pub struct Preview {
    pub date: String,
    pub operator: String,
    pub preview: Vec<String>,
}

/// A profession and its sub-professions.
#[derive(Debug)]
pub struct Profession {
    pub profession: String,
    pub subprofession: HashMap<String, String>,
}

/// The known real name of an operator and its sources.
#[derive(Debug)]
pub struct RealName {
    pub operator: String,
    pub real_name: Vec<String>,
    pub source: Vec<String>,
}

/// A skin record.
#[derive(Debug)]
pub struct Skin {
    pub name: String,
    pub is_animated: bool,
    pub has_intro_animation: bool,
    pub has_exclusive_voice: bool,
    pub has_multiple_actions: bool,
    pub owner: String,
    pub essay: String,
    pub painter: String,
    pub access: String,
    pub brand_group: String,
    pub date_launch: Option<(u16, u8, u8)>,
    pub description: String,
}

/// A brand and its skins.
#[derive(Debug)]
pub struct Brand {
    pub name: String,
    pub intro: String,
    pub skin: Vec<Skin>,
}

/// One voice line file and its texts per language.
pub struct VoiceItem {
    pub voice_filename: String,
    pub item: indexmap::IndexMap<String, String>,
}

/// The voice table of an operator.
pub struct Voice {
    pub voice_base: indexmap::IndexMap<String, String>,
    pub voice_item: indexmap::IndexMap<String, VoiceItem>,
}

/// A scalar value as the record readers see it.
#[derive(Debug)]
pub enum JsonScalar {
    Null,
    Bool(bool),
    Num(u64),
    Text(String),
}

/// The numeric value of a digit sequence.
pub open spec fn digits_val(s: Seq<char>) -> int
    decreases s.len(),
{
    if s.len() == 0 {
        0
    } else {
        digits_val(s.drop_last()) * 10 + (s.last() as int - 48)
    }
}

pub open spec fn all_digits(s: Seq<char>) -> bool {
    forall|k: int| 0 <= k < s.len() ==> 48 <= (#[trigger] s[k]) as int <= 57
}

/// What parsing a decimal byte value accepts: an optional leading plus,
/// then at least one digit, with the value at most 255.
pub open spec fn parse_u8_spec(s: Seq<char>) -> Option<u8> {
    let digits = if s.len() >= 1 && s[0] == '+' {
        s.drop_first()
    } else {
        s
    };
    if digits.len() >= 1 && all_digits(digits) && digits_val(digits) <= 255 {
        Some(digits_val(digits) as u8)
    } else {
        None
    }
}

/// Parses a decimal byte value: an optional leading plus, then at
/// least one digit; values over 255 are rejected.
pub fn parse_u8(s: &str) -> (r: Option<u8>)
    ensures
        r == parse_u8_spec(s@),
{
    let n = s.unicode_len();
    let from: usize = if n >= 1 && s.get_char(0) == '+' {
        1
    } else {
        0
    };
    let ghost digits = if s@.len() >= 1 && s@[0] == '+' {
        s@.drop_first()
    } else {
        s@
    };
    proof {
        assert(digits =~= s@.skip(from as int));
    }
    if n == from {
        return None;
    }
    let mut acc: u32 = 0;
    let mut k: usize = from;
    while k < n
        invariant
            from <= k <= n,
            n == s@.len(),
            from <= 1,
            digits == s@.skip(from as int),
            digits == (if s@.len() >= 1 && s@[0] == '+' {
                s@.drop_first()
            } else {
                s@
            }),
            all_digits(s@.subrange(from as int, k as int)),
            digits_val(s@.subrange(from as int, k as int)) <= 255 ==> acc == digits_val(
                s@.subrange(from as int, k as int),
            ),
            digits_val(s@.subrange(from as int, k as int)) > 255 ==> 256 <= acc,
            acc <= 300,
        decreases n - k,
    {
        let c = s.get_char(k);
        let u = c as u32;
        if !(48 <= u && u <= 57) {
            proof {
                assert(digits[k - from] == s@[k as int]);
                assert(!all_digits(digits));
            }
            return None;
        }
        let ghost pre = s@.subrange(from as int, k as int);
        let d = u - 48;
        acc = if acc * 10 + d <= 300 {
            acc * 10 + d
        } else {
            300
        };
        k += 1;
        proof {
            assert(s@.subrange(from as int, k as int).drop_last() =~= pre);
        }
    }
    proof {
        assert(s@.subrange(from as int, n as int) =~= digits);
    }
    if acc <= 255 {
        Some(acc as u8)
    } else {
        None
    }
}

/// The rarity level a record value denotes: a number is taken as is, a
/// text is parsed and shifted up by one; anything else is rejected.
pub fn rarity(v: &JsonScalar) -> (r: Option<u8>)
    requires
        v matches JsonScalar::Text(s) ==> parse_u8_spec(s@) != Some(255u8),
    ensures
        r == (match v {
            JsonScalar::Num(n) => (if n <= 255 {
                Some(n as u8)
            } else {
                None
            }),
            JsonScalar::Text(s) => (match parse_u8_spec(s@) {
                Some(d) => Some((d + 1) as u8),
                None => None,
            }),
            _ => None,
        }),
{
    match v {
        JsonScalar::Num(n) => {
            if *n <= 255 {
                Some(*n as u8)
            } else {
                None
            }
        },
        JsonScalar::Text(s) => {
            match parse_u8(s.as_str()) {
                Some(d) => Some(d + 1),
                None => None,
            }
        },
        _ => None,
    }
}

/// What a record-memory link becomes: a value that already names a
/// full address stays, everything else is resolved against the wiki.
pub open spec fn story_txt_spec(s: Seq<char>) -> Seq<char> {
    if s.len() >= 5 && s.subrange(0, 5) == "https"@ {
        s
    } else {
        "https://prts.wiki/w/"@ + s
    }
}

/// Resolves a record-memory link.
pub fn story_txt(s: &str) -> (r: String)
    ensures
        r@ == story_txt_spec(s@),
{
    let n = s.unicode_len();
    let https = if n >= 5 {
        let c0 = s.get_char(0);
        let c1 = s.get_char(1);
        let c2 = s.get_char(2);
        let c3 = s.get_char(3);
        let c4 = s.get_char(4);
        proof {
            reveal_strlit("https");
            if c0 == 'h' && c1 == 't' && c2 == 't' && c3 == 'p' && c4 == 's' {
                assert(s@.subrange(0, 5) =~= "https"@);
            } else {
                assert(s@.subrange(0, 5)[0] == c0);
                assert(s@.subrange(0, 5)[1] == c1);
                assert(s@.subrange(0, 5)[2] == c2);
                assert(s@.subrange(0, 5)[3] == c3);
                assert(s@.subrange(0, 5)[4] == c4);
            }
        }
        c0 == 'h' && c1 == 't' && c2 == 't' && c3 == 'p' && c4 == 's'
    } else {
        false
    };
    if https {
        s.to_owned()
    } else {
        let mut r = String::from_str("https://prts.wiki/w/");
        r.append(s);
        r
    }
}

/// The first index of `c` in `s`, or -1 when it does not occur.
pub open spec fn find_char(s: Seq<char>, c: char) -> int
    decreases s.len(),
{
    if s.len() == 0 {
        -1
    } else if s[0] == c {
        0
    } else {
        let r = find_char(s.drop_first(), c);
        if r == -1 {
            -1
        } else {
            r + 1
        }
    }
}

/// The sequence with every trailing `c` removed.
pub open spec fn trim_trailing(s: Seq<char>, c: char) -> Seq<char>
    decreases s.len(),
{
    if s.len() > 0 && s.last() == c {
        trim_trailing(s.drop_last(), c)
    } else {
        s
    }
}

/// The sequence padded on the left with zeros to at least two digits.
pub open spec fn pad2(s: Seq<char>) -> Seq<char> {
    if s.len() >= 2 {
        s
    } else if s.len() == 1 {
        seq!['0'] + s
    } else {
        seq!['0', '0']
    }
}

/// What a date-of-birth value becomes: a value holding a month marker
/// is split there, the month and the day (stripped of its trailing day
/// markers) are zero-padded to two digits and rejoined with the month
/// and day markers; any other value stays as it is.
pub open spec fn dob_spec(s: Seq<char>) -> Seq<char> {
    let i = find_char(s, '\u{6708}');
    if i == -1 {
        s
    } else {
        pad2(s.take(i)) + seq!['\u{6708}'] + pad2(trim_trailing(s.skip(i + 1), '\u{65e5}')) + seq![
            '\u{65e5}',
        ]
    }
}

proof fn lemma_find_char_at(s: Seq<char>, c: char, k: int)
    requires
        0 <= k < s.len(),
        s[k] == c,
        forall|m: int| 0 <= m < k ==> s[m] != c,
    ensures
        find_char(s, c) == k,
    decreases k,
{
    if k > 0 {
        assert forall|m: int| 0 <= m < k - 1 implies s.drop_first()[m] != c by {
            assert(s.drop_first()[m] == s[m + 1]);
        }
        assert(s.drop_first()[k - 1] == c);
        lemma_find_char_at(s.drop_first(), c, k - 1);
    }
}

proof fn lemma_find_char_none(s: Seq<char>, c: char)
    requires
        forall|m: int| 0 <= m < s.len() ==> s[m] != c,
    ensures
        find_char(s, c) == -1,
    decreases s.len(),
{
    if s.len() > 0 {
        assert forall|m: int| 0 <= m < s.drop_first().len() implies s.drop_first()[m] != c by {
            assert(s.drop_first()[m] == s[m + 1]);
        }
        lemma_find_char_none(s.drop_first(), c);
    }
}

/// Pads a string on the left with zeros to at least two digits.
fn pad2_str(t: &str) -> (r: String)
    ensures
        r@ == pad2(t@),
{
    let n = t.unicode_len();
    if n >= 2 {
        t.to_owned()
    } else if n == 1 {
        let mut r = String::from_str("0");
        r.append(t);
        proof {
            reveal_strlit("0");
            assert(r@ =~= pad2(t@));
        }
        r
    } else {
        let r = String::from_str("00");
        proof {
            reveal_strlit("00");
            assert(r@ =~= pad2(t@));
        }
        r
    }
}

/// Normalizes a date-of-birth value: a value with a month marker has
/// its month and day parts zero-padded to two digits; anything else is
/// kept as it is.
pub fn date_of_birth(s: &str) -> (r: String)
    ensures
        r@ == dob_spec(s@),
{
    let n = s.unicode_len();
    let mut idx: usize = 0;
    let mut found = false;
    while idx < n && !found
        invariant
            n == s@.len(),
            idx <= n,
            !found ==> forall|m: int| 0 <= m < idx ==> s@[m] != '\u{6708}',
            found ==> idx < n && s@[idx as int] == '\u{6708}' && forall|m: int|
                0 <= m < idx ==> s@[m] != '\u{6708}',
        decreases n - idx + (if found {
            0int
        } else {
            1int
        }),
    {
        if s.get_char(idx) == '\u{6708}' {
            found = true;
        } else {
            idx += 1;
        }
    }
    if !found {
        proof {
            lemma_find_char_none(s@, '\u{6708}');
        }
        return s.to_owned();
    }
    proof {
        lemma_find_char_at(s@, '\u{6708}', idx as int);
    }
    let month = s.substring_char(0, idx);
    // Strip the trailing day markers from the day part.
    let mut e: usize = n;
    while e > idx + 1 && s.get_char(e - 1) == '\u{65e5}'
        invariant
            n == s@.len(),
            idx < n,
            idx + 1 <= e <= n,
            trim_trailing(s@.skip(idx as int + 1), '\u{65e5}') == trim_trailing(
                s@.subrange(idx as int + 1, e as int),
                '\u{65e5}',
            ),
        decreases e,
    {
        proof {
            let cur = s@.subrange(idx as int + 1, e as int);
            assert(cur.last() == s@[e - 1]);
            assert(cur.drop_last() =~= s@.subrange(idx as int + 1, e as int - 1));
        }
        e -= 1;
    }
    proof {
        let cur = s@.subrange(idx as int + 1, e as int);
        if e > idx + 1 {
            assert(cur.last() == s@[e - 1]);
            assert(trim_trailing(cur, '\u{65e5}') == cur);
        } else {
            assert(cur.len() == 0);
            assert(trim_trailing(cur, '\u{65e5}') == cur);
        }
    }
    let day = s.substring_char(idx + 1, e);
    let mut r = pad2_str(month);
    r.append("\u{6708}");
    r.append(pad2_str(day).as_str());
    r.append("\u{65e5}");
    proof {
        reveal_strlit("\u{6708}");
        reveal_strlit("\u{65e5}");
        assert(r@ =~= dob_spec(s@));
    }
    r
}

/// The first index where the three characters occur in a row, or -1.
pub open spec fn find3_spec(s: Seq<char>, a: char, b: char, c: char) -> int
    decreases s.len(),
{
    if s.len() < 3 {
        -1
    } else if s[0] == a && s[1] == b && s[2] == c {
        0
    } else {
        let r = find3_spec(s.drop_first(), a, b, c);
        if r == -1 {
            -1
        } else {
            r + 1
        }
    }
}

/// What stripping escaped angle-bracket runs leaves: while an `&lt`
/// marker occurs and a `gt;` marker closes at or after it, everything
/// from the opener through the closer is removed; a value whose
/// markers do not pair up is left as it is.
pub open spec fn del_spec(s: Seq<char>) -> Seq<char>
    decreases s.len(),
{
    let lt = find3_spec(s, '&', 'l', 't');
    if lt == -1 {
        s
    } else {
        let gt = find3_spec(s, 'g', 't', ';');
        if 0 <= lt && lt <= gt && gt + 3 <= s.len() {
            del_spec(s.take(lt) + s.skip(gt + 3))
        } else {
            s
        }
    }
}

proof fn lemma_find3_at(s: Seq<char>, a: char, b: char, c: char, k: int)
    requires
        0 <= k,
        k + 2 < s.len(),
        s[k] == a && s[k + 1] == b && s[k + 2] == c,
        forall|m: int| 0 <= m < k ==> !((#[trigger] s[m]) == a && s[m + 1] == b && s[m + 2] == c),
    ensures
        find3_spec(s, a, b, c) == k,
    decreases k,
{
    if k > 0 {
        assert forall|m: int| 0 <= m < k - 1 implies !((#[trigger] s.drop_first()[m]) == a
            && s.drop_first()[m + 1] == b && s.drop_first()[m + 2] == c) by {
            assert(s.drop_first()[m] == s[m + 1]);
            assert(s.drop_first()[m + 1] == s[m + 2]);
            assert(s.drop_first()[m + 2] == s[m + 3]);
        }
        assert(s.drop_first()[k - 1] == s[k]);
        assert(s.drop_first()[k] == s[k + 1]);
        assert(s.drop_first()[k + 1] == s[k + 2]);
        lemma_find3_at(s.drop_first(), a, b, c, k - 1);
    }
}

proof fn lemma_find3_none(s: Seq<char>, a: char, b: char, c: char)
    requires
        forall|m: int| 0 <= m && m + 2 < s.len() ==> !((#[trigger] s[m]) == a && s[m + 1] == b && s[m + 2] == c),
    ensures
        find3_spec(s, a, b, c) == -1,
    decreases s.len(),
{
    if s.len() >= 3 {
        assert(!(s[0] == a && s[1] == b && s[2] == c));
        assert forall|m: int| 0 <= m && m + 2 < s.drop_first().len() implies !((
        #[trigger] s.drop_first()[m]) == a && s.drop_first()[m + 1] == b && s.drop_first()[m + 2]
            == c) by {
            assert(s.drop_first()[m] == s[m + 1]);
            assert(s.drop_first()[m + 1] == s[m + 2]);
            assert(s.drop_first()[m + 2] == s[m + 3]);
        }
        lemma_find3_none(s.drop_first(), a, b, c);
    }
}

/// The first position of three characters in a row.
fn find3(s: &str, a: char, b: char, c: char) -> (r: Option<usize>)
    ensures
        r matches Some(k) ==> find3_spec(s@, a, b, c) == k && k + 2 < s@.len(),
        r is None ==> find3_spec(s@, a, b, c) == -1,
{
    let n = s.unicode_len();
    if n < 3 {
        proof {
            lemma_find3_none(s@, a, b, c);
        }
        return None;
    }
    let mut k: usize = 0;
    while k + 2 < n
        invariant
            n == s@.len(),
            3 <= n,
            k + 2 <= n,
            forall|m: int|
                0 <= m < k ==> !((#[trigger] s@[m]) == a && s@[m + 1] == b && s@[m + 2] == c),
        decreases n - k,
    {
        if s.get_char(k) == a && s.get_char(k + 1) == b && s.get_char(k + 2) == c {
            proof {
                lemma_find3_at(s@, a, b, c, k as int);
            }
            return Some(k);
        }
        k += 1;
    }
    proof {
        lemma_find3_none(s@, a, b, c);
    }
    None
}

/// Strips escaped angle-bracket runs: every stretch from an `&lt`
/// marker through the next `gt;` closer is removed, repeatedly; a
/// value whose markers do not pair up is left as it is.
pub fn del_lt_gt(s: &str) -> (r: String)
    ensures
        r@ == del_spec(s@),
    decreases s@.len(),
{
    let n = s.unicode_len();
    match find3(s, '&', 'l', 't') {
        None => s.to_owned(),
        Some(lt) => {
            match find3(s, 'g', 't', ';') {
                Some(gt) if lt <= gt => {
                    proof {
                        assert(gt + 3 <= s@.len());
                    }
                    let mut next = s.substring_char(0, lt).to_owned();
                    next.append(s.substring_char(gt + 3, n));
                    proof {
                        assert(next@ =~= s@.take(lt as int) + s@.skip(gt as int + 3));
                        assert(next@.len() < s@.len());
                    }
                    del_lt_gt(next.as_str())
                },
                _ => s.to_owned(),
            }
        },
    }
}

/// Whether a trait-addition marker is set: absent means no, a flag
/// speaks for itself, and any text means yes; a number is rejected.
pub fn traitadd(v: &JsonScalar) -> (r: Option<bool>)
    ensures
        r == (match v {
            JsonScalar::Null => Some(false),
            JsonScalar::Bool(b) => Some(*b),
            JsonScalar::Text(_) => Some(true),
            JsonScalar::Num(_) => None::<bool>,
        }),
{
    match v {
        JsonScalar::Null => Some(false),
        JsonScalar::Bool(b) => Some(*b),
        JsonScalar::Text(_) => Some(true),
        JsonScalar::Num(_) => None,
    }
}

} // verus!
