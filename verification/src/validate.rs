//! Cover validation: a binary confusion matrix between a simulated and an
//! observed snow map, and the `SIM:OBS` pair arguments that name them.
use vstd::prelude::*;

use crate::text::{chars_of, string_from_chars};

verus! {

/// Counts of a binary snow/no-snow comparison over co-valid cells.
#[derive(Debug, Clone, Copy, PartialEq, Eq, Structural)]
pub struct Confusion {
    /// Snow in both maps.
    pub tp: u64,
    /// Snow simulated, not observed.
    pub fp: u64,
    /// Snow observed, not simulated.
    pub fn_: u64,
    /// Snow in neither map.
    pub tn: u64,
}

impl Confusion {
    /// Number of cells counted.
    pub open spec fn total(self) -> int {
        self.tp + self.fp + self.fn_ + self.tn
    }

    /// Number of cells counted, `tp + fp + fn_ + tn`.
    pub fn valid(&self) -> (n: u64)
        requires
            self.total() <= u64::MAX,
        ensures
            n == self.total(),
    {
        self.tp + self.fp + self.fn_ + self.tn
    }

    /// Adds the counts of `other` to these, class by class.
    pub fn add(&mut self, other: &Confusion)
        requires
            old(self).tp + other.tp <= u64::MAX,
            old(self).fp + other.fp <= u64::MAX,
            old(self).fn_ + other.fn_ <= u64::MAX,
            old(self).tn + other.tn <= u64::MAX,
        ensures
            final(self).tp == old(self).tp + other.tp,
            final(self).fp == old(self).fp + other.fp,
            final(self).fn_ == old(self).fn_ + other.fn_,
            final(self).tn == old(self).tn + other.tn,
            final(self).total() == old(self).total() + other.total(),
    {
        self.tp += other.tp;
        self.fp += other.fp;
        self.fn_ += other.fn_;
        self.tn += other.tn;
    }
}

impl Default for Confusion {
    fn default() -> (c: Confusion)
        ensures
            c == (Confusion { tp: 0, fp: 0, fn_: 0, tn: 0 }),
    {
        Confusion { tp: 0, fp: 0, fn_: 0, tn: 0 }
    }
}

/// How many cells of `cells` are co-valid with the classes
/// `(simulated snow, observed snow)` given. `None` is a cell that is nodata
/// in either map.
pub open spec fn count_class(cells: Seq<Option<(bool, bool)>>, class: (bool, bool)) -> nat
    decreases cells.len(),
{
    if cells.len() == 0 {
        0
    } else {
        count_class(cells.drop_last(), class) + if cells.last() == Some(class) {
            1nat
        } else {
            0nat
        }
    }
}

/// The confusion matrix of a sequence of cells.
pub open spec fn confusion_of(cells: Seq<Option<(bool, bool)>>) -> Confusion {
    Confusion {
        tp: count_class(cells, (true, true)) as u64,
        fp: count_class(cells, (true, false)) as u64,
        fn_: count_class(cells, (false, true)) as u64,
        tn: count_class(cells, (false, false)) as u64,
    }
}

proof fn lemma_counts_bounded(cells: Seq<Option<(bool, bool)>>)
    ensures
        count_class(cells, (true, true)) + count_class(cells, (true, false)) + count_class(
            cells,
            (false, true),
        ) + count_class(cells, (false, false)) <= cells.len(),
    decreases cells.len(),
{
    if cells.len() > 0 {
        lemma_counts_bounded(cells.drop_last());
    }
}

/// Counting a concatenation of cells gives the sum of the counts of its
/// parts, for every class: the confusion matrix of several map pairs pooled
/// together is the sum of their matrices.
pub proof fn counts_add_over_concatenation(
    a: Seq<Option<(bool, bool)>>,
    b: Seq<Option<(bool, bool)>>,
    class: (bool, bool),
)
    ensures
        count_class(a + b, class) == count_class(a, class) + count_class(b, class),
    decreases b.len(),
{
    if b.len() == 0 {
        assert(a + b =~= a);
    } else {
        assert((a + b).drop_last() =~= a + b.drop_last());
        counts_add_over_concatenation(a, b.drop_last(), class);
    }
}

/// The cells of `cells` equal to `Some(class)`, that is, valid in both maps
/// with `class.0` telling whether the simulated map has snow and `class.1`
/// whether the observed map has snow.
pub open spec fn cells_of_class(cells: Seq<Option<(bool, bool)>>, class: (bool, bool)) -> Seq<
    Option<(bool, bool)>,
> {
    cells.filter(|x: Option<(bool, bool)>| x == Some(class))
}

proof fn lemma_count_is_filter(cells: Seq<Option<(bool, bool)>>, class: (bool, bool))
    ensures
        count_class(cells, class) == cells_of_class(cells, class).len(),
    decreases cells.len(),
{
    reveal(Seq::filter);
    if cells.len() > 0 {
        lemma_count_is_filter(cells.drop_last(), class);
    }
}

/// What each count of a confusion matrix counts: `tp` the cells with snow in
/// both maps, `fp` the cells with snow simulated but not observed (false
/// alarms), `fn_` the cells with snow observed but not simulated (misses),
/// `tn` the cells with snow in neither map; nodata cells (`None`) in none.
pub proof fn confusion_counts_each_outcome(cells: Seq<Option<(bool, bool)>>)
    requires
        cells.len() <= usize::MAX,
    ensures
        confusion_of(cells).tp == cells_of_class(cells, (true, true)).len(),
        confusion_of(cells).fp == cells_of_class(cells, (true, false)).len(),
        confusion_of(cells).fn_ == cells_of_class(cells, (false, true)).len(),
        confusion_of(cells).tn == cells_of_class(cells, (false, false)).len(),
        confusion_of(cells).total() == cells.len() - cells_of_class_none(cells).len(),
{
    lemma_counts_bounded(cells);
    lemma_count_is_filter(cells, (true, true));
    lemma_count_is_filter(cells, (true, false));
    lemma_count_is_filter(cells, (false, true));
    lemma_count_is_filter(cells, (false, false));
    lemma_counts_partition(cells);
}

/// The nodata cells of `cells`.
pub open spec fn cells_of_class_none(cells: Seq<Option<(bool, bool)>>) -> Seq<Option<(bool, bool)>> {
    cells.filter(|x: Option<(bool, bool)>| x is None)
}

proof fn lemma_counts_partition(cells: Seq<Option<(bool, bool)>>)
    ensures
        count_class(cells, (true, true)) + count_class(cells, (true, false)) + count_class(
            cells,
            (false, true),
        ) + count_class(cells, (false, false)) + cells_of_class_none(cells).len() == cells.len(),
    decreases cells.len(),
{
    reveal(Seq::filter);
    if cells.len() > 0 {
        lemma_counts_partition(cells.drop_last());
        assert(cells.drop_last().filter(|x: Option<(bool, bool)>| x is None)
            == cells_of_class_none(cells.drop_last()));
        match cells.last() {
            Some((a, b)) => {
                assert(cells.last() == Some((a, b)));
                if a {
                    if b {
                        assert(cells.last() == Some((true, true)));
                    } else {
                        assert(cells.last() == Some((true, false)));
                    }
                } else {
                    if b {
                        assert(cells.last() == Some((false, true)));
                    } else {
                        assert(cells.last() == Some((false, false)));
                    }
                }
            },
            None => {},
        }
    }
}

/// Why a map pair has no confusion matrix.
#[derive(Debug, Clone, Copy, PartialEq, Eq, Structural)]
pub enum CompareError {
    /// No cell is valid in both maps.
    NoValidCells,
}

/// The confusion matrix of the cells of a map pair. Each cell is `None`
/// where either map is nodata, else whether each map counts it as snow.
/// Fails when no cell is valid in both maps.
pub fn tally(cells: &Vec<Option<(bool, bool)>>) -> (r: Result<Confusion, CompareError>)
    ensures
        match r {
            Ok(c) => {
                &&& c == confusion_of(cells@)
                &&& c.total() > 0 && c.total() <= cells@.len()
                &&& c.tp == cells_of_class(cells@, (true, true)).len()
                &&& c.fp == cells_of_class(cells@, (true, false)).len()
                &&& c.fn_ == cells_of_class(cells@, (false, true)).len()
                &&& c.tn == cells_of_class(cells@, (false, false)).len()
            },
            Err(e) => e == CompareError::NoValidCells && confusion_of(cells@).total() == 0,
        },
{
    let mut c = Confusion { tp: 0, fp: 0, fn_: 0, tn: 0 };
    let mut i: usize = 0;
    while i < cells.len()
        invariant
            i <= cells@.len(),
            c.tp == count_class(cells@.take(i as int), (true, true)),
            c.fp == count_class(cells@.take(i as int), (true, false)),
            c.fn_ == count_class(cells@.take(i as int), (false, true)),
            c.tn == count_class(cells@.take(i as int), (false, false)),
        decreases cells.len() - i,
    {
        proof {
            assert(cells@.take(i + 1).drop_last() =~= cells@.take(i as int));
            lemma_counts_bounded(cells@.take(i as int));
        }
        match cells[i] {
            Some((true, true)) => c.tp += 1,
            Some((true, false)) => c.fp += 1,
            Some((false, true)) => c.fn_ += 1,
            Some((false, false)) => c.tn += 1,
            None => {},
        }
        i += 1;
    }
    proof {
        assert(cells@.take(cells@.len() as int) =~= cells@);
        lemma_counts_bounded(cells@);
        confusion_counts_each_outcome(cells@);
    }
    if c.tp == 0 && c.fp == 0 && c.fn_ == 0 && c.tn == 0 {
        return Err(CompareError::NoValidCells);
    }
    Ok(c)
}

/// Position of the first `c` in `s`.
pub open spec fn first_index(s: Seq<char>, c: char) -> Option<nat>
    decreases s.len(),
{
    if s.len() == 0 {
        None
    } else if s[0] == c {
        Some(0)
    } else {
        match first_index(s.drop_first(), c) {
            Some(i) => Some(i + 1),
            None => None,
        }
    }
}

proof fn lemma_first_index(s: Seq<char>, c: char, k: int)
    requires
        0 <= k <= s.len(),
        forall|j: int| 0 <= j < k ==> s[j] != c,
    ensures
        k < s.len() && s[k] == c ==> first_index(s, c) == Some(k as nat),
        k == s.len() ==> first_index(s, c) is None,
    decreases k,
{
    if k > 0 {
        lemma_first_index(s.drop_first(), c, k - 1);
    }
}

/// Why a `SIM:OBS` argument is not a pair.
#[derive(Debug, Clone, Copy, PartialEq, Eq, Structural)]
pub enum PairError {
    /// The argument has no `:`.
    MissingColon,
}

/// Whether `t` is a contiguous part of `s`.
pub open spec fn is_part_of(t: Seq<char>, s: Seq<char>) -> bool {
    exists|i: int, j: int| 0 <= i <= j <= s.len() && t == s.subrange(i, j)
}

/// Whether `s` is a bare file name on every platform: not empty, and
/// without a path separator (`/`, `\`), a drive or prefix marker (`:`) or
/// an extension dot (`.`).
pub open spec fn plain_file_name(s: Seq<char>) -> bool {
    s.len() > 0 && forall|i: int|
        0 <= i < s.len() ==> #[trigger] s[i] != '/' && s[i] != '\\' && s[i] != ':' && s[i]
            != '.'
}

/// `std::path::Path::file_stem` of `path`, converted lossily to a string.
/// The stem is a slice of the path's final component, so what comes back is
/// a contiguous part of `path` (a slice of valid UTF-8 converts without
/// loss). A bare file name without a dot is a path of one normal component,
/// that component is its file name, and a file name without an embedded dot
/// is its own stem, so such a path comes back whole. Where the final
/// component of any other path lies depends on the platform's path syntax:
/// that is left unsaid.
#[verifier::external_body]
fn file_stem_lossy(path: &str) -> (r: Option<String>)
    ensures
        r matches Some(s) ==> is_part_of(s@, path@),
        plain_file_name(path@) ==> (r is Some && r->0@ == path@),
{
    std::path::Path::new(path).file_stem().map(|s| s.to_string_lossy().into_owned())
}

/// The label of a pair: the file stem of its simulated file where it has
/// one, else the whole argument.
pub fn pair_label(stem: Option<String>, pair: &str) -> (label: String)
    ensures
        label@ == match stem {
            Some(s) => s@,
            None => pair@,
        },
{
    match stem {
        Some(s) => s,
        None => {
            let chars = chars_of(pair);
            string_from_chars(chars.as_slice())
        },
    }
}

/// Splits a `SIM:OBS` argument at its first `:` into the simulated path,
/// the observed path and a label for the report: the simulated file's stem,
/// a contiguous part of the simulated path (the whole of it when it is a
/// bare name without a dot), or the whole argument where it has none.
pub fn split_pair(pair: &str) -> (r: Result<(String, String, String), PairError>)
    ensures
        match r {
            Ok((sim, obs, label)) => {
                &&& first_index(pair@, ':') matches Some(i) && sim@ == pair@.take(i as int)
                    && obs@ == pair@.skip(i + 1 as int)
                &&& pair@ == sim@ + seq![':'] + obs@
                &&& label@ == pair@ || is_part_of(label@, sim@)
                &&& plain_file_name(sim@) ==> label@ == sim@
            },
            Err(e) => e == PairError::MissingColon && first_index(pair@, ':') is None,
        },
{
    let chars = chars_of(pair);
    let mut i: usize = 0;
    while i < chars.len() && chars[i] != ':'
        invariant
            i <= chars@.len(),
            chars@ == pair@,
            forall|j: int| 0 <= j < i ==> chars@[j] != ':',
        decreases chars.len() - i,
    {
        i += 1;
    }
    proof {
        lemma_first_index(pair@, ':', i as int);
    }
    if i == chars.len() {
        return Err(PairError::MissingColon);
    }
    let mut sim_chars: Vec<char> = Vec::new();
    let mut k: usize = 0;
    while k < i
        invariant
            k <= i < chars@.len(),
            sim_chars@ == chars@.take(k as int),
        decreases i - k,
    {
        sim_chars.push(chars[k]);
        assert(chars@.take(k + 1) =~= chars@.take(k as int).push(chars@[k as int]));
        k += 1;
    }
    let mut obs_chars: Vec<char> = Vec::new();
    let mut k: usize = i + 1;
    while k < chars.len()
        invariant
            i < k <= chars@.len(),
            obs_chars@ == chars@.subrange(i + 1, k as int),
        decreases chars.len() - k,
    {
        obs_chars.push(chars[k]);
        assert(chars@.subrange(i + 1, k + 1) =~= chars@.subrange(i + 1, k as int).push(
            chars@[k as int],
        ));
        k += 1;
    }
    assert(chars@.skip(i + 1) =~= chars@.subrange(i + 1, chars@.len() as int));
    assert(chars@ =~= chars@.take(i as int) + seq![':'] + chars@.skip(i + 1));
    let sim = string_from_chars(sim_chars.as_slice());
    let obs = string_from_chars(obs_chars.as_slice());
    let label = pair_label(file_stem_lossy(sim.as_str()), pair);
    Ok((sim, obs, label))
}

} // verus!
