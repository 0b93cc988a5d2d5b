//! The names of the files of a store, the file ids that a directory
//! listing holds, and the clock.

use vstd::prelude::*;
use vstd::string::{StrSliceExecFns, StringExecFns};

verus! {

/// The extension of data files.
pub const DATAFILE_EXT: &'static str = "data";

/// The extension of hint files.
pub const HINTFILE_EXT: &'static str = "hint";

/// The decimal digit for `d`, a number below ten.
pub open spec fn digit_char(d: nat) -> char {
    if d == 0 {
        '0'
    } else if d == 1 {
        '1'
    } else if d == 2 {
        '2'
    } else if d == 3 {
        '3'
    } else if d == 4 {
        '4'
    } else if d == 5 {
        '5'
    } else if d == 6 {
        '6'
    } else if d == 7 {
        '7'
    } else if d == 8 {
        '8'
    } else {
        '9'
    }
}

/// The number that the decimal digit `c` stands for.
pub open spec fn digit_value(c: char) -> Option<nat> {
    if c == '0' {
        Some(0)
    } else if c == '1' {
        Some(1)
    } else if c == '2' {
        Some(2)
    } else if c == '3' {
        Some(3)
    } else if c == '4' {
        Some(4)
    } else if c == '5' {
        Some(5)
    } else if c == '6' {
        Some(6)
    } else if c == '7' {
        Some(7)
    } else if c == '8' {
        Some(8)
    } else if c == '9' {
        Some(9)
    } else {
        None
    }
}

/// The decimal digits of `n`, without leading zeros.
pub open spec fn decimal(n: nat) -> Seq<char>
    decreases n,
{
    if n < 10 {
        seq![digit_char(n)]
    } else {
        decimal(n / 10).push(digit_char(n % 10))
    }
}

/// Whether `s` holds decimal digits only.
pub open spec fn all_digits(s: Seq<char>) -> bool {
    forall|i: int| 0 <= i < s.len() ==> digit_value(#[trigger] s[i]) is Some
}

/// The number that the decimal digits `s` stand for.
pub open spec fn decimal_value(s: Seq<char>) -> nat
    decreases s.len(),
{
    if s.len() == 0 {
        0
    } else {
        decimal_value(s.drop_last()) * 10 + match digit_value(s.last()) {
            Some(d) => d,
            None => 0,
        }
    }
}

/// The number that `s` stands for as the text of a `u64`: an optional `+`
/// and then at least one decimal digit, and nothing else, with a value in
/// the range of `u64`.
pub open spec fn parse_decimal(s: Seq<char>) -> Option<u64> {
    let digits = if s.len() > 0 && s[0] == '+' {
        s.skip(1)
    } else {
        s
    };
    if digits.len() > 0 && all_digits(digits) && decimal_value(digits) <= u64::MAX {
        Some(decimal_value(digits) as u64)
    } else {
        None
    }
}

/// The name of the data file `fileid` without its directory.
pub open spec fn datafile_basename(fileid: u64) -> Seq<char> {
    decimal(fileid as nat) + ".bitcask."@ + DATAFILE_EXT@
}

/// The name of the hint file `fileid` without its directory.
pub open spec fn hintfile_basename(fileid: u64) -> Seq<char> {
    decimal(fileid as nat) + ".bitcask."@ + HINTFILE_EXT@
}

/// The place of the last dot in `s`, if `s` has a dot.
pub open spec fn last_dot(s: Seq<char>) -> Option<int>
    decreases s.len(),
{
    if s.len() == 0 {
        None
    } else if s.last() == '.' {
        Some(s.len() - 1)
    } else {
        last_dot(s.drop_last())
    }
}

/// The place of the first dot in `s`, if `s` has a dot.
pub open spec fn first_dot(s: Seq<char>) -> Option<int>
    decreases s.len(),
{
    if s.len() == 0 {
        None
    } else {
        match first_dot(s.drop_last()) {
            Some(i) => Some(i),
            None => if s.last() == '.' {
                Some(s.len() - 1)
            } else {
                None
            },
        }
    }
}

/// The extension of the file name `name`: what follows its last dot. A
/// name without a dot has none, and neither has a name whose only dot is its
/// first character.
pub open spec fn extension(name: Seq<char>) -> Option<Seq<char>> {
    match last_dot(name) {
        Some(i) if i > 0 => Some(name.skip(i + 1)),
        _ => None,
    }
}

/// The file name `name` without its extension and the dot before it.
pub open spec fn file_stem(name: Seq<char>) -> Seq<char> {
    match last_dot(name) {
        Some(i) if i > 0 => name.take(i),
        _ => name,
    }
}

/// What stands in `s` before its first dot: all of `s` where it has none.
pub open spec fn first_segment(s: Seq<char>) -> Seq<char> {
    match first_dot(s) {
        Some(i) => s.take(i),
        None => s,
    }
}

/// The file id that the file name `name` gives, if it names a data file:
/// its extension is `data`, and what stands before its first dot is the
/// text of a `u64`.
pub open spec fn fileid_of_name(name: Seq<char>) -> Option<u64> {
    if extension(name) == Some(DATAFILE_EXT@) {
        parse_decimal(first_segment(file_stem(name)))
    } else {
        None
    }
}

/// Whether `s` is strictly ascending.
pub open spec fn ascending(s: Seq<u64>) -> bool {
    forall|i: int, j: int| 0 <= i < j < s.len() ==> s[i] < s[j]
}

/// Whether one of `names` is the name of the data file `id`.
pub open spec fn names_hold(names: Seq<String>, id: u64) -> bool {
    exists|i: int| 0 <= i < names.len() && fileid_of_name(#[trigger] names[i]@) == Some(id)
}

/// What the decimal digits of a number are: at least one character, each a
/// digit, and together they stand for the number.
pub proof fn lemma_decimal(n: nat)
    ensures
        decimal(n).len() > 0,
        all_digits(decimal(n)),
        decimal_value(decimal(n)) == n,
        forall|i: int| 0 <= i < decimal(n).len() ==> #[trigger] decimal(n)[i] != '.',
        decimal(n)[0] != '+',
    decreases n,
{
    let s = decimal(n);
    if n < 10 {
        assert(s.drop_last() =~= Seq::<char>::empty());
        assert(decimal_value(s.drop_last()) == 0);
    } else {
        lemma_decimal(n / 10);
        let front = decimal(n / 10);
        assert(s.drop_last() =~= front);
        assert(s.last() == digit_char(n % 10));
        assert forall|i: int| 0 <= i < s.len() implies digit_value(#[trigger] s[i]) is Some by {
            if i < front.len() {
                assert(s[i] == front[i]);
            }
        }
        assert forall|i: int| 0 <= i < s.len() implies #[trigger] s[i] != '.' by {
            if i < front.len() {
                assert(s[i] == front[i]);
            }
        }
        assert(s[0] == front[0]);
    }
}

/// A character that is no dot does not move the last dot.
proof fn lemma_last_dot_push(s: Seq<char>, c: char)
    ensures
        last_dot(s.push(c)) == if c == '.' {
            Some(s.len() as int)
        } else {
            last_dot(s)
        },
{
    assert(s.push(c).drop_last() =~= s);
}

/// The first dot stays the first when a character follows.
proof fn lemma_first_dot_push(s: Seq<char>, c: char)
    ensures
        first_dot(s.push(c)) == match first_dot(s) {
            Some(i) => Some(i),
            None => if c == '.' {
                Some(s.len() as int)
            } else {
                None
            },
        },
{
    assert(s.push(c).drop_last() =~= s);
}

/// A text without a dot has no first dot.
proof fn lemma_first_dot_none(s: Seq<char>)
    requires
        forall|i: int| 0 <= i < s.len() ==> #[trigger] s[i] != '.',
    ensures
        first_dot(s) is None,
    decreases s.len(),
{
    if s.len() > 0 {
        let front = s.drop_last();
        assert forall|i: int| 0 <= i < front.len() implies #[trigger] front[i] != '.' by {
            assert(front[i] == s[i]);
        }
        lemma_first_dot_none(front);
        assert(s.last() == s[s.len() - 1]);
    }
}

/// The name of a data file gives back its file id, and the name of a hint
/// file gives none: a directory listing is read as the files that were
/// written under these names.
pub proof fn law_file_names(fileid: u64)
    ensures
        fileid_of_name(datafile_basename(fileid)) == Some(fileid),
        fileid_of_name(hintfile_basename(fileid)) is None,
{
    reveal_strlit(".bitcask.");
    reveal_strlit("data");
    reveal_strlit("hint");
    let digits = decimal(fileid as nat);
    lemma_decimal(fileid as nat);
    lemma_first_dot_none(digits);
    let d = digits.len() as int;
    let s0 = digits.push('.');
    let s1 = s0.push('b');
    let s2 = s1.push('i');
    let s3 = s2.push('t');
    let s4 = s3.push('c');
    let s5 = s4.push('a');
    let s6 = s5.push('s');
    let stem = s6.push('k');
    lemma_first_dot_push(digits, '.');
    lemma_first_dot_push(s0, 'b');
    lemma_first_dot_push(s1, 'i');
    lemma_first_dot_push(s2, 't');
    lemma_first_dot_push(s3, 'c');
    lemma_first_dot_push(s4, 'a');
    lemma_first_dot_push(s5, 's');
    lemma_first_dot_push(s6, 'k');
    assert(first_dot(stem) == Some(d));
    assert(stem.take(d) =~= digits);
    let base = stem.push('.');
    lemma_last_dot_push(stem, '.');
    let data = datafile_basename(fileid);
    let d1 = base.push('d');
    let d2 = d1.push('a');
    let d3 = d2.push('t');
    let d4 = d3.push('a');
    lemma_last_dot_push(base, 'd');
    lemma_last_dot_push(d1, 'a');
    lemma_last_dot_push(d2, 't');
    lemma_last_dot_push(d3, 'a');
    assert(data =~= d4);
    assert(last_dot(data) == Some(d + 8));
    assert(data.skip(d + 9) =~= DATAFILE_EXT@);
    assert(data.take(d + 8) =~= stem);
    let hint = hintfile_basename(fileid);
    let h1 = base.push('h');
    let h2 = h1.push('i');
    let h3 = h2.push('n');
    let h4 = h3.push('t');
    lemma_last_dot_push(base, 'h');
    lemma_last_dot_push(h1, 'i');
    lemma_last_dot_push(h2, 'n');
    lemma_last_dot_push(h3, 't');
    assert(hint =~= h4);
    assert(last_dot(hint) == Some(d + 8));
    assert(hint.skip(d + 9)[0] == 'h');
    assert(DATAFILE_EXT@[0] == 'd');
}

/// Formats `n` with the standard library, which writes an integer in
/// decimal digits without leading zeros.
#[verifier::external_body]
fn u64_to_string(n: u64) -> (r: String)
    ensures
        r@ == decimal(n as nat),
{
    format!("{n}")
}

/// Calls `str::parse` for `u64`. The standard library accepts an optional
/// `+` followed by decimal digits only, and fails on an empty text, on any
/// other character and on a value out of range.
#[verifier::external_body]
fn parse_u64(s: &str) -> (r: Option<u64>)
    ensures
        r == parse_decimal(s@),
{
    s.parse::<u64>().ok()
}

/// Reads the clock of the machine with `SystemTime::now` and has `chrono`
/// count the nanoseconds since 1970: `DateTime::from_timestamp`, then
/// `DateTime::timestamp_nanos_opt`. Each step gives `None` rather than stop
/// the program: for a clock that stands before 1970, for an instant outside
/// the dates that `chrono` knows, and for a number that does not fit `i64`.
/// Nothing is claimed of the result.
#[verifier::external_body]
fn clock_nanos() -> Option<i64> {
    let since = std::time::SystemTime::now().duration_since(std::time::UNIX_EPOCH).ok()?;
    chrono::DateTime::from_timestamp(since.as_secs() as i64, since.subsec_nanos())?
        .timestamp_nanos_opt()
}

/// The wall clock in nanoseconds since 1970, or `None` where the clock
/// cannot give the current instant as such a number.
pub fn timestamp() -> Option<i64> {
    clock_nanos()
}

/// The name of a file of the store in `dir`: the directory, a slash, the
/// file id in decimal digits, and `.bitcask.` with the extension `ext`.
fn logfile_name(dir: &str, fileid: u64, ext: &str) -> (name: String)
    ensures
        name@ == dir@ + "/"@ + decimal(fileid as nat) + ".bitcask."@ + ext@,
{
    let digits = u64_to_string(fileid);
    String::from_str(dir).concat("/").concat(digits.as_str()).concat(".bitcask.").concat(ext)
}

/// The path of the data file `fileid` of the store in `dir`:
/// `dir/<fileid>.bitcask.data`.
pub fn datafile_name(dir: &str, fileid: u64) -> (name: String)
    ensures
        name@ == dir@ + "/"@ + datafile_basename(fileid),
{
    logfile_name(dir, fileid, DATAFILE_EXT)
}

/// The path of the hint file `fileid` of the store in `dir`:
/// `dir/<fileid>.bitcask.hint`.
pub fn hintfile_name(dir: &str, fileid: u64) -> (name: String)
    ensures
        name@ == dir@ + "/"@ + hintfile_basename(fileid),
{
    logfile_name(dir, fileid, HINTFILE_EXT)
}

/// The file id that the file name `name` gives, if it names a data file.
/// Hint files, other files and names whose number cannot be read give
/// `None`.
pub fn fileid_of(name: &str) -> (r: Option<u64>)
    ensures
        r == fileid_of_name(name@),
{
    let n = name.unicode_len();
    let mut last: Option<usize> = None;
    let mut i: usize = 0;
    while i < n
        invariant
            i <= n,
            n == name@.len(),
            match last {
                Some(k) => last_dot(name@.take(i as int)) == Some(k as int) && k < i,
                None => last_dot(name@.take(i as int)) is None,
            },
        decreases n - i,
    {
        let c = name.get_char(i);
        proof {
            let next = name@.take(i + 1);
            assert(next.drop_last() =~= name@.take(i as int));
            assert(next.last() == c);
        }
        if c == '.' {
            last = Some(i);
        }
        i += 1;
    }
    proof {
        assert(name@.take(n as int) =~= name@);
        reveal_strlit("data");
    }
    let dot = match last {
        Some(k) => k,
        None => {
            return None;
        },
    };
    if dot == 0 || n - dot != 5 {
        proof {
            if dot > 0 {
                assert(name@.skip(dot + 1).len() != 4);
            }
        }
        return None;
    }
    if name.get_char(dot + 1) != 'd' || name.get_char(dot + 2) != 'a' || name.get_char(dot + 3)
        != 't' || name.get_char(dot + 4) != 'a' {
        proof {
            let ext = name@.skip(dot + 1);
            assert(ext[0] == name@[dot + 1]);
            assert(ext[1] == name@[dot + 2]);
            assert(ext[2] == name@[dot + 3]);
            assert(ext[3] == name@[dot + 4]);
        }
        return None;
    }
    proof {
        let ext = name@.skip(dot + 1);
        assert(ext[0] == name@[dot + 1]);
        assert(ext[1] == name@[dot + 2]);
        assert(ext[2] == name@[dot + 3]);
        assert(ext[3] == name@[dot + 4]);
        assert(ext =~= DATAFILE_EXT@);
    }
    let ghost stem = name@.take(dot as int);
    let mut first: Option<usize> = None;
    let mut j: usize = 0;
    while j < dot
        invariant
            j <= dot,
            dot < n,
            n == name@.len(),
            stem == name@.take(dot as int),
            match first {
                Some(k) => first_dot(stem.take(j as int)) == Some(k as int) && k < j,
                None => first_dot(stem.take(j as int)) is None,
            },
        decreases dot - j,
    {
        let c = name.get_char(j);
        proof {
            let next = stem.take(j + 1);
            assert(next.drop_last() =~= stem.take(j as int));
            assert(next.last() == c);
        }
        if c == '.' && first.is_none() {
            first = Some(j);
        }
        j += 1;
    }
    proof {
        assert(stem.take(dot as int) =~= stem);
    }
    let end = match first {
        Some(k) => k,
        None => dot,
    };
    let segment = name.substring_char(0, end);
    proof {
        assert(name@.subrange(0, end as int) =~= first_segment(stem));
    }
    parse_u64(segment)
}

/// Puts `id` at its place in the ascending vector `ids`, unless it is in
/// there already.
fn insert_ascending(ids: &mut Vec<u64>, id: u64)
    requires
        ascending(old(ids)@),
    ensures
        ascending(final(ids)@),
        forall|x: u64| final(ids)@.contains(x) <==> (old(ids)@.contains(x) || x == id),
{
    let mut i: usize = 0;
    while i < ids.len() && ids[i] < id
        invariant
            i <= ids.len(),
            *ids == *old(ids),
            forall|k: int| 0 <= k < i ==> ids@[k] < id,
        decreases ids.len() - i,
    {
        i += 1;
    }
    if i < ids.len() && ids[i] == id {
        assert(ids@.contains(id));
        return ;
    }
    ids.insert(i, id);
    proof {
        let before = old(ids)@;
        let after = ids@;
        assert(after == before.insert(i as int, id));
        assert forall|x: u64| after.contains(x) <==> (before.contains(x) || x == id) by {
            if after.contains(x) {
                let k = choose|k: int| 0 <= k < after.len() && after[k] == x;
                if k < i {
                    assert(before[k] == x);
                } else if k > i {
                    assert(before[k - 1] == x);
                }
            }
            if before.contains(x) {
                let k = choose|k: int| 0 <= k < before.len() && before[k] == x;
                if k < i {
                    assert(after[k] == x);
                } else {
                    assert(after[k + 1] == x);
                }
            }
            if x == id {
                assert(after[i as int] == x);
            }
        }
    }
}

/// The ids of the data files among the file names `names`, each once, in
/// ascending order. Names of hint files and of other files, and names whose
/// number cannot be read, are passed over.
pub fn sorted_fileids(names: &Vec<String>) -> (ids: Vec<u64>)
    ensures
        ascending(ids@),
        forall|id: u64| ids@.contains(id) <==> names_hold(names@, id),
{
    let mut ids: Vec<u64> = Vec::new();
    let mut i: usize = 0;
    while i < names.len()
        invariant
            i <= names.len(),
            ascending(ids@),
            forall|id: u64| ids@.contains(id) <==> names_hold(names@.take(i as int), id),
        decreases names.len() - i,
    {
        let ghost seen = names@.take(i as int);
        let ghost next = names@.take(i + 1);
        let ghost before = ids@;
        let found = fileid_of(names[i].as_str());
        match found {
            Some(id) => {
                insert_ascending(&mut ids, id);
            },
            None => {},
        }
        proof {
            assert forall|id: u64| ids@.contains(id) <==> names_hold(next, id) by {
                if names_hold(next, id) {
                    let k = choose|k: int|
                        0 <= k < next.len() && fileid_of_name(#[trigger] next[k]@) == Some(id);
                    if k < i {
                        assert(seen[k] == next[k]);
                        assert(names_hold(seen, id));
                    }
                }
                if names_hold(seen, id) {
                    let k = choose|k: int|
                        0 <= k < seen.len() && fileid_of_name(#[trigger] seen[k]@) == Some(id);
                    assert(next[k] == seen[k]);
                }
                if found == Some(id) {
                    assert(next[i as int] == names@[i as int]);
                }
            }
        }
        i += 1;
    }
    proof {
        assert(names@.take(i as int) =~= names@);
    }
    ids
}

} // verus!
