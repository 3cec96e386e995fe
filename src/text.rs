//! Text helpers for the catalog search and for fixed-size keys.
use vstd::prelude::*;
use vstd::string::StrSliceExecFns;
use vstd::string::StringExecFns;
use vstd::string::StringSliceAdditionalSpecFns;

verus! {

/// The characters with the Unicode White_Space property.
pub open spec fn is_whitespace_char(c: char) -> bool {
    let v = c as u32;
    (0x09 <= v <= 0x0D) || v == 0x20 || v == 0x85 || v == 0xA0 || v == 0x1680
        || (0x2000 <= v <= 0x200A) || v == 0x2028 || v == 0x2029 || v == 0x202F
        || v == 0x205F || v == 0x3000
}

/// `s` with every whitespace character left out.
pub open spec fn without_whitespace(s: Seq<char>) -> Seq<char> {
    s.filter(|c: char| !is_whitespace_char(c))
}

/// Whether `pat` occurs in `text` as a contiguous run.
pub open spec fn contains_run(text: Seq<char>, pat: Seq<char>) -> bool {
    exists|i: int| 0 <= i && i + pat.len() <= text.len() && #[trigger] text.subrange(i, i + pat.len()) == pat
}

/// The search rule on text that is already lowercased: the query occurs in the
/// field as written, or occurs once whitespace is taken out of both.
pub open spec fn matches_folded_spec(query: Seq<char>, field: Seq<char>) -> bool {
    contains_run(field, query) || contains_run(without_whitespace(field), without_whitespace(query))
}

/// The lowercase form of `s`, as `str::to_lowercase` gives it.
pub uninterp spec fn lower_of(s: Seq<char>) -> Seq<char>;

/// Relies on str::to_lowercase: the lowercase mapping of each character, which
/// depends on the characters alone.
#[verifier::external_body]
pub(crate) fn to_lowercase(s: &str) -> (r: String)
    ensures
        r@ == lower_of(s@),
{
    s.to_lowercase()
}

/// Whether `c` has the Unicode White_Space property.
pub fn is_whitespace(c: char) -> (r: bool)
    ensures
        r == is_whitespace_char(c),
{
    let v = c as u32;
    (0x09 <= v && v <= 0x0D) || v == 0x20 || v == 0x85 || v == 0xA0 || v == 0x1680
        || (0x2000 <= v && v <= 0x200A) || v == 0x2028 || v == 0x2029 || v == 0x202F
        || v == 0x205F || v == 0x3000
}

/// `s` with every whitespace character removed.
pub fn remove_whitespace(s: &str) -> (r: String)
    ensures
        r@ == without_whitespace(s@),
{
    let n = s.unicode_len();
    let mut out = String::new();
    let mut i: usize = 0;
    while i < n
        invariant
            n == s@.len(),
            i <= n,
            out@ == without_whitespace(s@.subrange(0, i as int)),
        decreases n - i,
    {
        let c = s.get_char(i);
        let ghost pre = s@.subrange(0, i as int);
        proof {
            reveal(Seq::filter);
            assert(s@.subrange(0, i + 1).drop_last() =~= pre);
            assert(s@.subrange(0, i + 1).last() == c);
        }
        if !is_whitespace(c) {
            let piece = s.substring_char(i, i + 1);
            out.append(piece);
            proof {
                assert(piece@ =~= seq![c]);
                assert(out@ =~= without_whitespace(pre).push(c));
                assert(without_whitespace(s@.subrange(0, i + 1)) == without_whitespace(pre).push(c));
            }
        } else {
            proof {
                assert(without_whitespace(s@.subrange(0, i + 1)) == without_whitespace(pre));
            }
        }
        i = i + 1;
    }
    proof {
        assert(s@.subrange(0, n as int) =~= s@);
    }
    out
}

/// The characters of `s`, one per element.
fn chars_of(s: &str) -> (r: Vec<char>)
    ensures
        r@ == s@,
{
    let n = s.unicode_len();
    let mut out: Vec<char> = Vec::new();
    let mut i: usize = 0;
    while i < n
        invariant
            n == s@.len(),
            i <= n,
            out@ == s@.subrange(0, i as int),
        decreases n - i,
    {
        out.push(s.get_char(i));
        proof {
            assert(out@ =~= s@.subrange(0, i + 1));
        }
        i = i + 1;
    }
    proof {
        assert(out@ =~= s@);
    }
    out
}

/// Whether `pat` occurs in `text` as a contiguous run.
fn contains_run_exec(text: &Vec<char>, pat: &Vec<char>) -> (r: bool)
    ensures
        r == contains_run(text@, pat@),
{
    let tn = text.len();
    let pn = pat.len();
    if pn > tn {
        proof {
            assert forall|i: int| 0 <= i && i + pat@.len() <= text@.len() implies
                #[trigger] text@.subrange(i, i + pat@.len()) != pat@ by {}
        }
        return false;
    }
    if pn == 0 {
        proof {
            assert(text@.subrange(0int, 0int + pat@.len()) =~= pat@);
        }
        return true;
    }
    let mut i: usize = 0;
    while i <= tn - pn
        invariant
            tn == text@.len(),
            pn == pat@.len(),
            0 < pn <= tn,
            i <= tn - pn + 1,
            forall|k: int| 0 <= k < i ==> #[trigger] text@.subrange(k, k + pn) != pat@,
        decreases tn - pn + 1 - i,
    {
        let mut j: usize = 0;
        let mut same = true;
        while j < pn
            invariant
                tn == text@.len(),
                pn == pat@.len(),
                i + pn <= tn,
                j <= pn,
                same ==> forall|m: int| 0 <= m < j ==> text@[i + m] == #[trigger] pat@[m],
                !same ==> text@.subrange(i as int, i + pn) != pat@,
            decreases pn - j,
        {
            if same && text[i + j] != pat[j] {
                proof {
                    assert(text@.subrange(i as int, i + pn)[j as int] == text@[i + j]);
                }
                same = false;
            }
            j = j + 1;
        }
        if same {
            proof {
                assert(text@.subrange(i as int, i + pn) =~= pat@);
            }
            return true;
        }
        i = i + 1;
    }
    proof {
        assert forall|k: int| 0 <= k && k + pat@.len() <= text@.len() implies
            #[trigger] text@.subrange(k, k + pat@.len()) != pat@ by {
            assert(k < i);
        }
    }
    false
}

/// The search rule on already lowercased text: the query occurs in the field,
/// or occurs once whitespace is taken out of both.
pub fn matches_folded(query: &str, field: &str) -> (r: bool)
    ensures
        r == matches_folded_spec(query@, field@),
{
    let q = chars_of(query);
    let f = chars_of(field);
    if contains_run_exec(&f, &q) {
        return true;
    }
    let qs = remove_whitespace(query);
    let fs = remove_whitespace(field);
    let qs_chars = chars_of(qs.as_str());
    let fs_chars = chars_of(fs.as_str());
    contains_run_exec(&fs_chars, &qs_chars)
}

/// The bytes of `input` in a 32-byte array, padded with zeros; an error where
/// the input is longer than 32 bytes.
pub fn string_to_fixed_array(input: &str) -> (r: Result<[u8; 32], &'static str>)
    ensures
        match r {
            Ok(a) => input.spec_bytes().len() <= 32
                && a@ == input.spec_bytes() + Seq::new((32 - input.spec_bytes().len()) as nat, |i: int| 0u8),
            Err(m) => input.spec_bytes().len() > 32 && m@ == "Input string is too long; must be 32 bytes or less."@,
        },
{
    let bytes = input.as_bytes();
    if bytes.len() > 32 {
        return Err("Input string is too long; must be 32 bytes or less.");
    }
    let mut array = [0u8; 32];
    let mut i: usize = 0;
    while i < bytes.len()
        invariant
            bytes@ == input.spec_bytes(),
            bytes@.len() <= 32,
            i <= bytes@.len(),
            array@.len() == 32,
            forall|k: int| 0 <= k < i ==> #[trigger] array@[k] == bytes@[k],
            forall|k: int| i <= k < 32 ==> #[trigger] array@[k] == 0u8,
        decreases bytes@.len() - i,
    {
        array[i] = bytes[i];
        i = i + 1;
    }
    proof {
        assert(array@ =~= input.spec_bytes() + Seq::new((32 - input.spec_bytes().len()) as nat, |i: int| 0u8));
    }
    Ok(array)
}

} // verus!
