use vstd::prelude::*;
use vstd::string::StrSliceExecFns;

verus! {

/// The fixed delimiter that ends the numeric prefix of an input file name.
pub open spec fn delim() -> char {
    '\u{3001}'
}

/// The numeric value of a decimal digit character, -1 for any other character.
pub open spec fn digit_value(c: char) -> int {
    if c == '0' {
        0
    } else if c == '1' {
        1
    } else if c == '2' {
        2
    } else if c == '3' {
        3
    } else if c == '4' {
        4
    } else if c == '5' {
        5
    } else if c == '6' {
        6
    } else if c == '7' {
        7
    } else if c == '8' {
        8
    } else if c == '9' {
        9
    } else {
        -1
    }
}

pub open spec fn is_digit(c: char) -> bool {
    digit_value(c) >= 0
}

pub open spec fn all_digits(s: Seq<char>) -> bool {
    forall|j: int| 0 <= j < s.len() ==> is_digit(#[trigger] s[j])
}

/// The value of a digit sequence read in base ten.
pub open spec fn digits_value(s: Seq<char>) -> int
    decreases s.len(),
{
    if s.len() == 0 {
        0
    } else {
        digits_value(s.drop_last()) * 10 + digit_value(s.last())
    }
}

/// The position of the first delimiter in a name; the name's length when the
/// name holds none.
pub open spec fn first_delim_pos(name: Seq<char>) -> int
    decreases name.len(),
{
    if name.len() == 0 {
        0
    } else if name[0] == delim() {
        0
    } else {
        1 + first_delim_pos(name.drop_first())
    }
}

/// The ordering key of a file name: the value of its nonempty, all-digit
/// prefix before the first delimiter, if the name has one and the value fits
/// in a machine word; `None` otherwise.
pub open spec fn file_key(name: Seq<char>) -> Option<int> {
    let p = first_delim_pos(name);
    if p < name.len() && p > 0 && all_digits(name.take(p)) && digits_value(name.take(p))
        <= u64::MAX as int {
        Some(digits_value(name.take(p)))
    } else {
        None
    }
}

pub proof fn lemma_first_delim_pos(name: Seq<char>)
    ensures
        0 <= first_delim_pos(name) <= name.len(),
        forall|j: int| 0 <= j < first_delim_pos(name) ==> name[j] != delim(),
        first_delim_pos(name) < name.len() ==> name[first_delim_pos(name)] == delim(),
    decreases name.len(),
{
    if name.len() == 0 {
    } else if name[0] == delim() {
    } else {
        lemma_first_delim_pos(name.drop_first());
        assert forall|j: int| 0 <= j < first_delim_pos(name) implies name[j] != delim() by {
            if j > 0 {
                assert(name.drop_first()[j - 1] == name[j]);
            }
        }
        if first_delim_pos(name) < name.len() {
            assert(name.drop_first()[first_delim_pos(name.drop_first())] == name[first_delim_pos(
                name,
            )]);
        }
    }
}

pub proof fn lemma_first_delim_at(name: Seq<char>, i: int)
    requires
        0 <= i < name.len(),
        name[i] == delim(),
        forall|j: int| 0 <= j < i ==> name[j] != delim(),
    ensures
        first_delim_pos(name) == i,
    decreases name.len(),
{
    if i == 0 {
    } else {
        assert(name[0] != delim());
        assert(name.drop_first()[i - 1] == name[i]);
        assert forall|j: int| 0 <= j < i - 1 implies name.drop_first()[j] != delim() by {
            assert(name.drop_first()[j] == name[j + 1]);
        }
        lemma_first_delim_at(name.drop_first(), i - 1);
    }
}

pub proof fn lemma_digits_value_nonneg(s: Seq<char>)
    requires
        all_digits(s),
    ensures
        digits_value(s) >= 0,
    decreases s.len(),
{
    if s.len() > 0 {
        assert(all_digits(s.drop_last()));
        lemma_digits_value_nonneg(s.drop_last());
    }
}

/// Reading more digits never shrinks the value.
pub proof fn lemma_digits_value_mono(s: Seq<char>, i: int, j: int)
    requires
        0 <= i <= j <= s.len(),
        forall|k: int| 0 <= k < j ==> is_digit(#[trigger] s[k]),
    ensures
        digits_value(s.take(i)) <= digits_value(s.take(j)),
    decreases j - i,
{
    if i < j {
        lemma_digits_value_mono(s, i, j - 1);
        assert(s.take(j).drop_last() =~= s.take(j - 1));
        assert(all_digits(s.take(j - 1)));
        lemma_digits_value_nonneg(s.take(j - 1));
        assert(s.take(j).last() == s[j - 1]);
    }
}

/// Parses the ordering key of a file name, exactly when `file_key` gives one.
pub fn parse_file_key(name: &str) -> (r: Option<u64>)
    ensures
        match r {
            Some(k) => file_key(name@) == Some(k as int),
            None => file_key(name@) is None,
        },
{
    let n = name.unicode_len();
    let mut acc: u64 = 0;
    let mut i: usize = 0;
    while i < n
        invariant
            n == name@.len(),
            i <= n,
            forall|j: int| 0 <= j < i ==> name@[j] != delim(),
            all_digits(name@.take(i as int)),
            acc as int == digits_value(name@.take(i as int)),
        decreases n - i,
    {
        let c = name.get_char(i);
        if c == '\u{3001}' {
            proof {
                lemma_first_delim_at(name@, i as int);
            }
            if i > 0 {
                return Some(acc);
            } else {
                return None;
            }
        }
        let d: u64 = match c {
            '0' => 0,
            '1' => 1,
            '2' => 2,
            '3' => 3,
            '4' => 4,
            '5' => 5,
            '6' => 6,
            '7' => 7,
            '8' => 8,
            '9' => 9,
            _ => 10,
        };
        if d == 10 {
            proof {
                lemma_first_delim_pos(name@);
                let p = first_delim_pos(name@);
                if p < name@.len() && p > 0 {
                    assert(p > i);
                    assert(!is_digit(name@.take(p)[i as int]));
                    assert(!all_digits(name@.take(p)));
                }
            }
            return None;
        }
        proof {
            assert(digit_value(c) == d);
            assert(name@.take(i + 1).drop_last() =~= name@.take(i as int));
            assert(name@.take(i + 1).last() == name@[i as int]);
            assert(digits_value(name@.take(i + 1)) == acc * 10 + d);
            assert(all_digits(name@.take(i + 1)));
        }
        let next: Option<u64> = match acc.checked_mul(10) {
            Some(m) => m.checked_add(d),
            None => None,
        };
        match next {
            Some(v) => {
                acc = v;
            },
            None => {
                proof {
                    assert(digits_value(name@.take(i + 1)) > u64::MAX as int);
                    lemma_first_delim_pos(name@);
                    let p = first_delim_pos(name@);
                    if p < name@.len() && p > 0 && all_digits(name@.take(p)) {
                        assert(p > i);
                        assert forall|k: int| 0 <= k < p implies is_digit(#[trigger] name@[k]) by {
                            assert(name@.take(p)[k] == name@[k]);
                        }
                        lemma_digits_value_mono(name@, i + 1, p);
                    }
                }
                return None;
            },
        }
        i = i + 1;
    }
    proof {
        lemma_first_delim_pos(name@);
        assert(first_delim_pos(name@) == name@.len());
    }
    None
}

/// One directory entry as plain character sequences: (file name, path).
pub type EntryView = (Seq<char>, Seq<char>);

pub open spec fn entry_views(entries: Seq<(String, String)>) -> Seq<EntryView> {
    Seq::new(entries.len(), |i: int| (entries[i].0@, entries[i].1@))
}

pub open spec fn file_views(files: Seq<crate::record::InputFile>) -> Seq<EntryView> {
    Seq::new(files.len(), |i: int| (files[i].name@, files[i].path@))
}

/// The ordering key of an entry; every entry a run accepts has one.
pub open spec fn view_key(e: EntryView) -> int {
    match file_key(e.0) {
        Some(k) => k,
        None => -1,
    }
}

/// Every entry's name carries a valid numeric prefix.
pub open spec fn keys_ok(entries: Seq<EntryView>) -> bool {
    forall|i: int| 0 <= i < entries.len() ==> file_key((#[trigger] entries[i]).0) is Some
}

pub open spec fn sorted_by_key(s: Seq<EntryView>) -> bool {
    forall|a: int, b: int|
        #![trigger s[a], s[b]]
        0 <= a <= b < s.len() ==> view_key(s[a]) <= view_key(s[b])
}

/// Inserts an entry after every entry whose key is not greater: a stable
/// insertion, so equal keys keep their listing order.
pub open spec fn sorted_insert(s: Seq<EntryView>, e: EntryView) -> Seq<EntryView>
    decreases s.len(),
{
    if s.len() == 0 {
        seq![e]
    } else if view_key(s.last()) <= view_key(e) {
        s.push(e)
    } else {
        sorted_insert(s.drop_last(), e).push(s.last())
    }
}

/// The discoverer's ordering: each entry stably inserted by its numeric key.
pub open spec fn spec_sort(s: Seq<EntryView>) -> Seq<EntryView>
    decreases s.len(),
{
    if s.len() == 0 {
        Seq::<EntryView>::empty()
    } else {
        sorted_insert(spec_sort(s.drop_last()), s.last())
    }
}

proof fn lemma_sorted_insert_ub(s: Seq<EntryView>, e: EntryView, m: int)
    requires
        forall|i: int| 0 <= i < s.len() ==> view_key(#[trigger] s[i]) <= m,
        view_key(e) <= m,
    ensures
        sorted_insert(s, e).len() == s.len() + 1,
        forall|i: int|
            0 <= i < sorted_insert(s, e).len() ==> view_key(#[trigger] sorted_insert(s, e)[i])
                <= m,
    decreases s.len(),
{
    if s.len() == 0 {
    } else if view_key(s.last()) <= view_key(e) {
    } else {
        lemma_sorted_insert_ub(s.drop_last(), e, m);
    }
}

pub proof fn lemma_sorted_insert_sorted(s: Seq<EntryView>, e: EntryView)
    requires
        sorted_by_key(s),
    ensures
        sorted_insert(s, e).len() == s.len() + 1,
        sorted_by_key(sorted_insert(s, e)),
    decreases s.len(),
{
    let r = sorted_insert(s, e);
    if s.len() == 0 {
    } else if view_key(s.last()) <= view_key(e) {
        assert forall|a: int, b: int| 0 <= a <= b < r.len() implies view_key(r[a]) <= view_key(
            r[b],
        ) by {
            if b == s.len() && a < s.len() {
                assert(view_key(s[a]) <= view_key(s[s.len() - 1]));
            }
        }
    } else {
        assert(sorted_by_key(s.drop_last()));
        lemma_sorted_insert_sorted(s.drop_last(), e);
        lemma_sorted_insert_ub(s.drop_last(), e, view_key(s.last()));
        let ins = sorted_insert(s.drop_last(), e);
        assert forall|a: int, b: int| 0 <= a <= b < r.len() implies view_key(r[a]) <= view_key(
            r[b],
        ) by {
            if b == ins.len() {
                if a < ins.len() {
                    assert(view_key(ins[a]) <= view_key(s.last()));
                }
            } else {
                assert(r[a] == ins[a] && r[b] == ins[b]);
            }
        }
    }
}

pub proof fn lemma_spec_sort_sorted(s: Seq<EntryView>)
    ensures
        spec_sort(s).len() == s.len(),
        sorted_by_key(spec_sort(s)),
    decreases s.len(),
{
    if s.len() > 0 {
        lemma_spec_sort_sorted(s.drop_last());
        lemma_sorted_insert_sorted(spec_sort(s.drop_last()), s.last());
    }
}

/// A stable insertion lands exactly at the position the search from the end
/// finds: after the last entry whose key is not greater.
pub proof fn lemma_sorted_insert_at(s: Seq<EntryView>, e: EntryView, j: int)
    requires
        sorted_by_key(s),
        0 <= j <= s.len(),
        j > 0 ==> view_key(s[j - 1]) <= view_key(e),
        forall|k: int| j <= k < s.len() ==> view_key(#[trigger] s[k]) > view_key(e),
    ensures
        sorted_insert(s, e) == s.insert(j, e),
    decreases s.len(),
{
    if s.len() == 0 {
        assert(seq![e] =~= s.insert(0, e));
    } else if view_key(s.last()) <= view_key(e) {
        assert(j == s.len());
        assert(s.push(e) =~= s.insert(j, e));
    } else {
        assert(j < s.len());
        assert(sorted_by_key(s.drop_last()));
        assert forall|k: int| j <= k < s.drop_last().len() implies view_key(
            #[trigger] s.drop_last()[k],
        ) > view_key(e) by {
            assert(s.drop_last()[k] == s[k]);
        }
        lemma_sorted_insert_at(s.drop_last(), e, j);
        assert(sorted_insert(s.drop_last(), e).push(s.last()) =~= s.insert(j, e));
    }
}

/// The views of the keyed triples a sort pass works on.
pub open spec fn triple_views(s: Seq<(u64, String, String)>) -> Seq<EntryView> {
    Seq::new(s.len(), |i: int| (s[i].1@, s[i].2@))
}

/// Lists the input files in merge order: each name's numeric prefix is its
/// key, entries are ordered by key (listing order breaking ties), and the
/// position in that order becomes the file's ordinal. Fails with
/// `NamingError`, before any work starts, exactly when some name has no
/// valid numeric prefix.
pub fn discover(entries: &Vec<(String, String)>) -> (r: Result<
    Vec<crate::record::InputFile>,
    crate::MergeError,
>)
    ensures
        match r {
            Ok(files) => {
                &&& keys_ok(entry_views(entries@))
                &&& files@.len() == entries@.len()
                &&& forall|i: int| 0 <= i < files@.len() ==> (#[trigger] files@[i]).ordinal == i
                &&& file_views(files@) == spec_sort(entry_views(entries@))
                &&& sorted_by_key(file_views(files@))
            },
            Err(e) => e == crate::MergeError::NamingError && !keys_ok(entry_views(entries@)),
        },
{
    let ghost evs = entry_views(entries@);
    let mut keyed: Vec<(u64, String, String)> = Vec::new();
    let mut i: usize = 0;
    while i < entries.len()
        invariant
            evs == entry_views(entries@),
            i <= entries@.len(),
            keyed@.len() == i,
            forall|j: int|
                #![trigger keyed@[j]]
                0 <= j < i ==> {
                    &&& keyed@[j].1@ == entries@[j].0@
                    &&& keyed@[j].2@ == entries@[j].1@
                    &&& file_key(entries@[j].0@) == Some(keyed@[j].0 as int)
                },
        decreases entries@.len() - i,
    {
        let name = entries[i].0.clone();
        let path = entries[i].1.clone();
        match parse_file_key(name.as_str()) {
            Some(k) => {
                keyed.push((k, name, path));
            },
            None => {
                proof {
                    assert(file_key(evs[i as int].0) is None);
                }
                return Err(crate::MergeError::NamingError);
            },
        }
        i = i + 1;
    }
    let mut sorted: Vec<(u64, String, String)> = Vec::new();
    let mut i2: usize = 0;
    while i2 < keyed.len()
        invariant
            evs == entry_views(entries@),
            keyed@.len() == entries@.len(),
            forall|j: int|
                #![trigger keyed@[j]]
                0 <= j < keyed@.len() ==> {
                    &&& keyed@[j].1@ == entries@[j].0@
                    &&& keyed@[j].2@ == entries@[j].1@
                    &&& file_key(entries@[j].0@) == Some(keyed@[j].0 as int)
                },
            i2 <= keyed@.len(),
            sorted@.len() == i2,
            triple_views(sorted@) == spec_sort(evs.take(i2 as int)),
            forall|j: int|
                #![trigger sorted@[j]]
                0 <= j < sorted@.len() ==> file_key(sorted@[j].1@) == Some(sorted@[j].0 as int),
        decreases keyed@.len() - i2,
    {
        let k = keyed[i2].0;
        let name = keyed[i2].1.clone();
        let path = keyed[i2].2.clone();
        let ghost tv = triple_views(sorted@);
        let ghost e: EntryView = (name@, path@);
        proof {
            lemma_spec_sort_sorted(evs.take(i2 as int));
            assert(view_key(e) == k);
        }
        let mut j: usize = sorted.len();
        while j > 0 && sorted[j - 1].0 > k
            invariant
                j <= sorted@.len(),
                tv == triple_views(sorted@),
                forall|idx: int| j <= idx < sorted@.len() ==> (#[trigger] sorted@[idx]).0 > k,
            decreases j,
        {
            j = j - 1;
        }
        proof {
            assert forall|idx: int| j <= idx < tv.len() implies view_key(#[trigger] tv[idx])
                > view_key(e) by {
                assert(file_key(sorted@[idx].1@) == Some(sorted@[idx].0 as int));
            }
            if j > 0 {
                assert(file_key(sorted@[j - 1].1@) == Some(sorted@[j - 1].0 as int));
                assert(view_key(tv[j - 1]) <= view_key(e));
            }
            lemma_sorted_insert_at(tv, e, j as int);
        }
        sorted.insert(j, (k, name, path));
        proof {
            assert(triple_views(sorted@) =~= tv.insert(j as int, e));
            assert(evs.take(i2 + 1).drop_last() =~= evs.take(i2 as int));
            assert(evs.take(i2 + 1).last() == evs[i2 as int]);
            assert(e == evs[i2 as int]);
            assert(triple_views(sorted@) == spec_sort(evs.take(i2 + 1)));
        }
        i2 = i2 + 1;
    }
    proof {
        assert(evs.take(evs.len() as int) =~= evs);
        lemma_spec_sort_sorted(evs);
    }
    let mut files: Vec<crate::record::InputFile> = Vec::new();
    let mut i3: usize = 0;
    while i3 < sorted.len()
        invariant
            sorted@.len() == entries@.len(),
            triple_views(sorted@) == spec_sort(evs),
            i3 <= sorted@.len(),
            files@.len() == i3,
            forall|j: int|
                #![trigger files@[j]]
                0 <= j < i3 ==> {
                    &&& files@[j].ordinal == j
                    &&& files@[j].name@ == sorted@[j].1@
                    &&& files@[j].path@ == sorted@[j].2@
                },
        decreases sorted@.len() - i3,
    {
        let name = sorted[i3].1.clone();
        let path = sorted[i3].2.clone();
        files.push(crate::record::InputFile { ordinal: i3, name, path });
        i3 = i3 + 1;
    }
    proof {
        assert(file_views(files@) =~= triple_views(sorted@));
        assert forall|idx: int| 0 <= idx < evs.len() implies file_key(
            (#[trigger] evs[idx]).0,
        ) is Some by {
            assert(file_key(entries@[idx].0@) == Some(keyed@[idx].0 as int));
        }
    }
    Ok(files)
}

/// Law: discovery is deterministic. The contract of `discover` pins its
/// result to `spec_sort` of the listing alone, so two runs over an unchanged
/// listing assign identical ordinals.
pub proof fn lemma_discover_deterministic(
    entries: Seq<EntryView>,
    r1: Seq<EntryView>,
    r2: Seq<EntryView>,
)
    requires
        r1 == spec_sort(entries),
        r2 == spec_sort(entries),
    ensures
        r1 == r2,
{
}

} // verus!
