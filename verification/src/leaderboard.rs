//! The high-score table: a list of named entries sorted by score, capped at
//! a fixed number of places. Loading and saving the table is a driver
//! concern; this module owns the ranking rules and the serialized text form.

use vstd::prelude::*;
use vstd::string::StringExecFns;

verus! {

/// One leaderboard place: a fixed-width name and a score.
#[derive(Debug)]
pub struct LeaderboardEntry {
    pub name: String,
    pub score: usize,
}

impl PartialEq for LeaderboardEntry {
    fn eq(&self, other: &Self) -> (r: bool) {
        self.name == other.name && self.score == other.score
    }
}

impl vstd::std_specs::cmp::PartialEqSpecImpl for LeaderboardEntry {
    open spec fn obeys_eq_spec() -> bool {
        true
    }

    open spec fn eq_spec(&self, other: &LeaderboardEntry) -> bool {
        self.name@ == other.name@ && self.score == other.score
    }
}

/// The high-score table, sorted by score, highest first.
#[derive(Debug)]
pub struct Leaderboard {
    entries: Vec<LeaderboardEntry>,
}

impl PartialEq for Leaderboard {
    fn eq(&self, other: &Self) -> (r: bool) {
        self.entries == other.entries
    }
}

impl vstd::std_specs::cmp::PartialEqSpecImpl for Leaderboard {
    open spec fn obeys_eq_spec() -> bool {
        true
    }

    open spec fn eq_spec(&self, other: &Leaderboard) -> bool {
        &&& self.spec_entries().len() == other.spec_entries().len()
        &&& forall|i: int|
            #![auto]
            0 <= i < self.spec_entries().len() ==> self.spec_entries()[i].name@
                == other.spec_entries()[i].name@ && self.spec_entries()[i].score
                == other.spec_entries()[i].score
    }
}

/// The decimal digit character for `d`.
pub open spec fn spec_digit(d: int) -> char {
    if d == 0 {
        '0'
    } else if d == 1 {
        '1'
    } else if d == 2 {
        '2'
    } else if d == 3 {
        '3'
    } else if d == 4 {
        '4'
    } else if d == 5 {
        '5'
    } else if d == 6 {
        '6'
    } else if d == 7 {
        '7'
    } else if d == 8 {
        '8'
    } else {
        '9'
    }
}

/// The decimal digits of `n`, most significant first.
pub open spec fn spec_decimal(n: int) -> Seq<char>
    recommends
        0 <= n,
    decreases n,
{
    if n < 10 {
        seq![spec_digit(n)]
    } else {
        spec_decimal(n / 10) + seq![spec_digit(n % 10)]
    }
}

/// One serialized leaderboard line without its newline: the name, a space
/// and the decimal score.
pub open spec fn spec_line_body(e: LeaderboardEntry) -> Seq<char> {
    e.name@ + seq![' '] + spec_decimal(e.score as int)
}

/// One serialized leaderboard line: the name, a space, the decimal score,
/// and a newline.
pub open spec fn spec_line(e: LeaderboardEntry) -> Seq<char> {
    spec_line_body(e) + seq!['\n']
}

/// The concatenated serialized lines of the first `i` entries.
pub open spec fn spec_lines_upto(s: Seq<LeaderboardEntry>, i: int) -> Seq<char>
    decreases i,
{
    if i <= 0 {
        Seq::empty()
    } else {
        spec_lines_upto(s, i - 1) + spec_line(s[i - 1])
    }
}

/// The slot `score` would take: the first place held by a strictly lower
/// score, the next free slot if every held place scores at least as much,
/// or nothing when the table is full of scores at least as high.
///
/// On ties this ranks the new score below every existing equal score (the
/// rank counts the entries scoring at least as much, not the strictly
/// higher ones): on a table scoring [300, 200], a new 200 takes slot 2,
/// not slot 1. That is deliberate, and of a piece with the full-table rule,
/// where a tied score never displaces an equal one.
pub open spec fn spec_place_from(s: Seq<LeaderboardEntry>, score: int, i: int) -> Option<int>
    decreases s.len() - i,
{
    if i < 0 || i >= s.len() {
        if s.len() < 10 {
            Some(s.len() as int)
        } else {
            None
        }
    } else if s[i].score < score {
        Some(i)
    } else {
        spec_place_from(s, score, i + 1)
    }
}

fn digit_str(d: usize) -> (r: &'static str)
    requires
        d < 10,
    ensures
        r@ == seq![spec_digit(d as int)],
{
    proof {
        reveal_strlit("0");
        reveal_strlit("1");
        reveal_strlit("2");
        reveal_strlit("3");
        reveal_strlit("4");
        reveal_strlit("5");
        reveal_strlit("6");
        reveal_strlit("7");
        reveal_strlit("8");
        reveal_strlit("9");
    }
    let r = match d {
        0 => "0",
        1 => "1",
        2 => "2",
        3 => "3",
        4 => "4",
        5 => "5",
        6 => "6",
        7 => "7",
        8 => "8",
        _ => "9",
    };
    proof {
        assert(r@ =~= seq![spec_digit(d as int)]);
    }
    r
}

/// The decimal text of `n`, proved to spell out its digits.
fn usize_to_decimal(n: usize) -> (s: String)
    ensures
        s@ == spec_decimal(n as int),
    decreases n,
{
    if n < 10 {
        let mut s = String::new();
        s.append(digit_str(n));
        proof {
            assert(s@ =~= spec_decimal(n as int));
        }
        s
    } else {
        let mut s = usize_to_decimal(n / 10);
        s.append(digit_str(n % 10));
        s
    }
}

/// A decimal digit character.
pub open spec fn is_digit_char(c: char) -> bool {
    ||| c == '0'
    ||| c == '1'
    ||| c == '2'
    ||| c == '3'
    ||| c == '4'
    ||| c == '5'
    ||| c == '6'
    ||| c == '7'
    ||| c == '8'
    ||| c == '9'
}

/// The numeric value of a digit character; meaningful for digits only.
pub open spec fn char_digit(c: char) -> int {
    if c == '0' {
        0
    } else if c == '1' {
        1
    } else if c == '2' {
        2
    } else if c == '3' {
        3
    } else if c == '4' {
        4
    } else if c == '5' {
        5
    } else if c == '6' {
        6
    } else if c == '7' {
        7
    } else if c == '8' {
        8
    } else {
        9
    }
}

/// The number a digit sequence spells, most significant digit first.
pub open spec fn seq_val(ds: Seq<char>) -> int
    decreases ds.len(),
{
    if ds.len() == 0 {
        0
    } else {
        seq_val(ds.drop_last()) * 10 + char_digit(ds.last())
    }
}

/// Appending a number's last digit to the digits of its other digits gives
/// the number's digits.
proof fn lemma_decimal_append(v: int, d: int)
    requires
        1 <= v,
        0 <= d < 10,
    ensures
        spec_decimal(v * 10 + d) == spec_decimal(v) + seq![spec_digit(d)],
{
    vstd::arithmetic::div_mod::lemma_fundamental_div_mod_converse(v * 10 + d, 10, v, d);
}

/// A number's digits are digit characters, there is at least one, and a
/// positive number never starts with a zero digit.
proof fn lemma_decimal_shape(n: int)
    requires
        0 <= n,
    ensures
        spec_decimal(n).len() >= 1,
        forall|k: int|
            0 <= k < spec_decimal(n).len() ==> is_digit_char(#[trigger] spec_decimal(n)[k]),
        n >= 1 ==> spec_decimal(n)[0] != '0',
    decreases n,
{
    if n < 10 {
    } else {
        vstd::arithmetic::div_mod::lemma_fundamental_div_mod(n, 10);
        vstd::arithmetic::div_mod::lemma_mod_bound(n, 10);
        lemma_decimal_shape(n / 10);
    }
}

/// A number's digits spell that number back.
proof fn lemma_decimal_val(n: int)
    requires
        0 <= n,
    ensures
        seq_val(spec_decimal(n)) == n,
    decreases n,
{
    if n < 10 {
        let s0 = seq![spec_digit(n)];
        assert(s0.drop_last() =~= Seq::<char>::empty());
        assert(s0.last() == spec_digit(n));
        assert(char_digit(spec_digit(n)) == n);
        assert(seq_val(Seq::<char>::empty()) == 0);
        assert(seq_val(s0) == 0 * 10 + char_digit(spec_digit(n)));
    } else {
        vstd::arithmetic::div_mod::lemma_fundamental_div_mod(n, 10);
        vstd::arithmetic::div_mod::lemma_mod_bound(n, 10);
        lemma_decimal_val(n / 10);
        assert(char_digit(spec_digit(n % 10)) == n % 10);
        let a = spec_decimal(n / 10);
        assert((a + seq![spec_digit(n % 10)]).drop_last() =~= a);
        assert((a + seq![spec_digit(n % 10)]).last() == spec_digit(n % 10));
        assert((n / 10) * 10 == 10 * (n / 10)) by (nonlinear_arith);
    }
}

/// A digit sequence spells a number at least zero.
proof fn lemma_seq_val_nonneg(ds: Seq<char>)
    requires
        forall|k: int| 0 <= k < ds.len() ==> is_digit_char(#[trigger] ds[k]),
    ensures
        0 <= seq_val(ds),
    decreases ds.len(),
{
    if ds.len() > 0 {
        lemma_seq_val_nonneg(ds.drop_last());
    }
}

/// A prefix of a digit sequence never spells a larger number.
proof fn lemma_seq_val_prefix(ds: Seq<char>, j: int)
    requires
        0 <= j <= ds.len(),
        forall|k: int| 0 <= k < ds.len() ==> is_digit_char(#[trigger] ds[k]),
    ensures
        seq_val(ds.take(j)) <= seq_val(ds),
    decreases ds.len() - j,
{
    if j == ds.len() {
        assert(ds.take(j) =~= ds);
    } else {
        lemma_seq_val_prefix(ds, j + 1);
        assert(ds.take(j + 1).drop_last() =~= ds.take(j));
        assert(ds.take(j + 1).last() == ds[j]);
        lemma_seq_val_nonneg(ds.take(j));
    }
}

/// The views of a list of line strings.
pub open spec fn line_views(lines: Seq<String>) -> Seq<Seq<char>> {
    lines.map_values(|s: String| s@)
}

/// The lines are the serialized table `lb`, one line per entry in order,
/// each an entry's serialized form without its newline; the names carry
/// the fixed three-character width, which makes the form unambiguous.
pub open spec fn lines_serialize(lines: Seq<Seq<char>>, lb: Leaderboard) -> bool {
    &&& lb.spec_entries().len() == lines.len()
    &&& forall|i: int|
        0 <= i < lines.len() ==> (#[trigger] lb.spec_entries()[i]).name@.len() == 3
    &&& forall|i: int|
        0 <= i < lines.len() ==> #[trigger] lines[i] == spec_line_body(lb.spec_entries()[i])
}

/// The pieces of a serialized line of a three-character name: the name, the
/// separating space, and the score's digits.
proof fn lemma_line_body_parts(e: LeaderboardEntry)
    requires
        e.name@.len() == 3,
    ensures
        spec_line_body(e).len() >= 5,
        spec_line_body(e)[3] == ' ',
        spec_line_body(e).skip(4) == spec_decimal(e.score as int),
        spec_line_body(e).take(3) == e.name@,
        forall|k: int|
            4 <= k < spec_line_body(e).len() ==> is_digit_char(#[trigger] spec_line_body(e)[k]),
{
    lemma_decimal_shape(e.score as int);
    assert(spec_line_body(e).skip(4) =~= spec_decimal(e.score as int));
    assert(spec_line_body(e).take(3) =~= e.name@);
    assert forall|k: int|
        4 <= k < spec_line_body(e).len() implies is_digit_char(
        #[trigger] spec_line_body(e)[k],
    ) by {
        assert(spec_line_body(e)[k] == spec_decimal(e.score as int)[k - 4]);
    }
}

/// A line of the serialized form pins the entry's score: two entries with
/// three-character names and the same line score the same.
proof fn lemma_line_body_determines_score(l: Seq<char>, e1: LeaderboardEntry, e2: LeaderboardEntry)
    requires
        e1.name@.len() == 3,
        e2.name@.len() == 3,
        spec_line_body(e1) == l,
        spec_line_body(e2) == l,
    ensures
        e1.score == e2.score,
{
    lemma_line_body_parts(e1);
    lemma_line_body_parts(e2);
    lemma_decimal_val(e1.score as int);
    lemma_decimal_val(e2.score as int);
    assert(spec_decimal(e1.score as int) == spec_decimal(e2.score as int));
}

/// The value of a digit character, or nothing for any other character.
fn digit_of(c: char) -> (r: Option<usize>)
    ensures
        r matches Some(d) ==> d < 10 && is_digit_char(c) && char_digit(c) == d && c == spec_digit(
            d as int,
        ),
        r is None ==> !is_digit_char(c),
{
    match c {
        '0' => Some(0),
        '1' => Some(1),
        '2' => Some(2),
        '3' => Some(3),
        '4' => Some(4),
        '5' => Some(5),
        '6' => Some(6),
        '7' => Some(7),
        '8' => Some(8),
        '9' => Some(9),
        _ => None,
    }
}

/// Parses the characters of `s` from `from` to the end as a decimal score.
/// Returns the one value whose decimal digits they are, or nothing when
/// they are no value's digits: empty, a stray character, a superfluous
/// leading zero, or a number beyond the score type.
fn parse_decimal(s: &str, from: usize) -> (r: Option<usize>)
    requires
        from as int <= s@.len(),
    ensures
        r matches Some(v) ==> s@.skip(from as int) == spec_decimal(v as int),
        r is None ==> forall|v: usize| s@.skip(from as int) != spec_decimal(v as int),
{
    let ghost ds = s@.skip(from as int);
    let n = s.unicode_len();
    if from >= n {
        proof {
            assert forall|v: usize| ds != spec_decimal(v as int) by {
                lemma_decimal_shape(v as int);
            }
        }
        return None;
    }
    let c0 = s.get_char(from);
    let d0_opt = digit_of(c0);
    if d0_opt.is_none() {
        proof {
            assert forall|v: usize| ds != spec_decimal(v as int) by {
                if ds == spec_decimal(v as int) {
                    lemma_decimal_shape(v as int);
                    assert(is_digit_char(ds[0]));
                }
            }
        }
        return None;
    }
    let d0 = d0_opt.unwrap();
    if d0 == 0 && from + 1 < n {
        proof {
            assert forall|v: usize| ds != spec_decimal(v as int) by {
                if ds == spec_decimal(v as int) {
                    lemma_decimal_shape(v as int);
                    if v >= 1 {
                        assert(ds[0] != '0');
                    } else {
                        assert(ds.len() == 1);
                    }
                }
            }
        }
        return None;
    }
    let mut value: usize = d0;
    let mut j: usize = from + 1;
    proof {
        assert(ds.take(1) =~= seq![spec_digit(d0 as int)]);
    }
    while j < n
        invariant
            from + 1 <= j <= n,
            n == s@.len(),
            from as int <= s@.len(),
            ds == s@.skip(from as int),
            ds.take(j - from) == spec_decimal(value as int),
            j < n ==> 1 <= value,
        decreases n - j,
    {
        let c = s.get_char(j);
        let d_opt = digit_of(c);
        if d_opt.is_none() {
            proof {
                assert forall|v: usize| ds != spec_decimal(v as int) by {
                    if ds == spec_decimal(v as int) {
                        lemma_decimal_shape(v as int);
                        assert(is_digit_char(ds[j - from]));
                    }
                }
            }
            return None;
        }
        let d = d_opt.unwrap();
        let scaled = value.checked_mul(10);
        let next = if scaled.is_some() {
            scaled.unwrap().checked_add(d)
        } else {
            None
        };
        if next.is_none() {
            proof {
                assert forall|v: usize| ds != spec_decimal(v as int) by {
                    if ds == spec_decimal(v as int) {
                        lemma_decimal_shape(v as int);
                        lemma_decimal_val(v as int);
                        lemma_seq_val_prefix(ds, j - from + 1);
                        assert(ds.take(j - from + 1).drop_last() =~= ds.take(j - from));
                        assert(ds.take(j - from + 1).last() == ds[j - from]);
                        lemma_decimal_val(value as int);
                        assert(seq_val(ds.take(j - from + 1)) == value * 10 + d);
                    }
                }
            }
            return None;
        }
        proof {
            lemma_decimal_append(value as int, d as int);
            assert(ds.take(j - from + 1) =~= ds.take(j - from) + seq![spec_digit(d as int)]);
        }
        value = next.unwrap();
        j = j + 1;
    }
    proof {
        assert(ds.take(n - from) =~= ds);
    }
    Some(value)
}

/// Parses the lines of a leaderboard file, each `name score` with a
/// three-character name and the score in plain decimal, best score first.
/// Success returns exactly the table those lines serialize (line for line,
/// see `lines_serialize`); failure means no such table exists: the lines
/// are not the serialized form of any well-formed table with
/// three-character names.
pub fn parse_leaderboard(lines: &Vec<String>) -> (r: Result<Leaderboard, &'static str>)
    ensures
        r matches Ok(lb) ==> lb.well_formed() && lines_serialize(line_views(lines@), lb),
        r is Err ==> forall|lb: Leaderboard|
            !(lb.well_formed() && #[trigger] lines_serialize(line_views(lines@), lb)),
{
    let ghost vlines = line_views(lines@);
    if lines.len() > 10 {
        proof {
            assert forall|lb: Leaderboard|
                !(lb.well_formed() && #[trigger] lines_serialize(vlines, lb)) by {}
        }
        return Err("Too many lines in file");
    }
    let mut entries: Vec<LeaderboardEntry> = Vec::new();
    let mut last_score: usize = usize::MAX;
    let mut i: usize = 0;
    while i < lines.len()
        invariant
            i <= lines@.len() <= 10,
            vlines == line_views(lines@),
            entries@.len() == i,
            forall|k: int| 0 <= k < i ==> (#[trigger] entries@[k]).name@.len() == 3,
            forall|k: int| 0 <= k < i ==> #[trigger] vlines[k] == spec_line_body(entries@[k]),
            forall|k1: int, k2: int|
                0 <= k1 < k2 < i ==> (#[trigger] entries@[k1]).score >= (
                #[trigger] entries@[k2]).score,
            forall|k: int| 0 <= k < i ==> (#[trigger] entries@[k]).score >= last_score,
            i > 0 ==> entries@[i - 1].score == last_score,
            i == 0 ==> last_score == usize::MAX,
        decreases lines@.len() - i,
    {
        let ghost iv = i as int;
        let line = &lines[i];
        proof {
            assert(vlines[iv] == line@);
        }
        let n = line.as_str().unicode_len();
        if n < 5 {
            proof {
                assert forall|lb: Leaderboard|
                    !(lb.well_formed() && #[trigger] lines_serialize(vlines, lb)) by {
                    if lb.well_formed() && lines_serialize(vlines, lb) {
                        lemma_line_body_parts(lb.spec_entries()[iv]);
                    }
                }
            }
            return Err("missing score entry in file");
        }
        let sep = line.as_str().get_char(3);
        if sep != ' ' {
            proof {
                assert forall|lb: Leaderboard|
                    !(lb.well_formed() && #[trigger] lines_serialize(vlines, lb)) by {
                    if lb.well_formed() && lines_serialize(vlines, lb) {
                        lemma_line_body_parts(lb.spec_entries()[iv]);
                    }
                }
            }
            return Err("missing score entry in file");
        }
        let score_opt = parse_decimal(line.as_str(), 4);
        if score_opt.is_none() {
            proof {
                assert forall|lb: Leaderboard|
                    !(lb.well_formed() && #[trigger] lines_serialize(vlines, lb)) by {
                    if lb.well_formed() && lines_serialize(vlines, lb) {
                        lemma_line_body_parts(lb.spec_entries()[iv]);
                        assert(line@.skip(4) == spec_decimal(
                            lb.spec_entries()[iv].score as int,
                        ));
                    }
                }
            }
            return Err("invalid score entry in file");
        }
        let score = score_opt.unwrap();
        if score > last_score {
            proof {
                assert forall|lb: Leaderboard|
                    !(lb.well_formed() && #[trigger] lines_serialize(vlines, lb)) by {
                    if lb.well_formed() && lines_serialize(vlines, lb) {
                        assert(iv >= 1);
                        let prev = lb.spec_entries()[iv - 1];
                        let here = lb.spec_entries()[iv];
                        assert(lb.spec_entries().len() == vlines.len());
                        assert(prev.name@.len() == 3);
                        assert(vlines[iv - 1] == spec_line_body(prev));
                        assert(entries@[iv - 1].name@.len() == 3);
                        assert(vlines[iv - 1] == spec_line_body(entries@[iv - 1]));
                        lemma_line_body_determines_score(vlines[iv - 1], prev, entries@[iv - 1]);
                        lemma_line_body_parts(here);
                        assert(line@.skip(4) == spec_decimal(here.score as int));
                        lemma_decimal_val(here.score as int);
                        lemma_decimal_val(score as int);
                        assert(here.score == score);
                        assert(prev.score >= here.score);
                    }
                }
            }
            return Err("Leaderboard file corrupted");
        }
        let name = line.as_str().substring_char(0, 3);
        let entry = LeaderboardEntry::new(name, score);
        proof {
            assert(vlines[iv] =~= entry.name@ + seq![' '] + spec_decimal(score as int));
        }
        entries.push(entry);
        last_score = score;
        i = i + 1;
    }
    let result = Leaderboard::from_raw(entries);
    Ok(result)
}

impl LeaderboardEntry {
    /// A new entry; the name must have exactly the fixed width.
    pub fn new(name: &str, score: usize) -> (e: LeaderboardEntry)
        requires
            name@.len() == 3,
        ensures
            e.name@ == name@,
            e.score == score,
    {
        LeaderboardEntry { name: String::from_str(name), score }
    }
}

impl Leaderboard {
    /// The entries, best score first.
    pub closed spec fn spec_entries(self) -> Seq<LeaderboardEntry> {
        self.entries@
    }

    /// The table holds at most the fixed number of places and is sorted by
    /// score, highest first.
    pub open spec fn well_formed(self) -> bool {
        &&& self.spec_entries().len() <= 10
        &&& forall|i: int, j: int|
            0 <= i < j < self.spec_entries().len() ==> (#[trigger] self.spec_entries()[i]).score
                >= (#[trigger] self.spec_entries()[j]).score
    }

    /// The fixed width of an entry's name field.
    pub fn entry_name_len() -> (r: usize)
        ensures
            r == 3,
    {
        3
    }

    /// The fixed number of places on the table.
    pub fn max_entries() -> (r: usize)
        ensures
            r == 10,
    {
        10
    }

    /// An empty table.
    pub fn new() -> (l: Self)
        ensures
            l.spec_entries().len() == 0,
            l.well_formed(),
    {
        Leaderboard { entries: Vec::new() }
    }

    /// A table built directly from a list of entries; the caller supplies
    /// them best score first.
    pub fn from_raw(entries: Vec<LeaderboardEntry>) -> (l: Self)
        ensures
            l.spec_entries() == entries@,
    {
        Leaderboard { entries }
    }

    /// The serialized table: one line per entry, `name score`.
    pub fn serialize(&self) -> (s: String)
        ensures
            s@ == spec_lines_upto(self.spec_entries(), self.spec_entries().len() as int),
    {
        let mut serialized_board = String::new();
        let mut i: usize = 0;
        proof {
            assert(serialized_board@ =~= spec_lines_upto(self.spec_entries(), 0));
        }
        while i < self.entries.len()
            invariant
                i <= self.spec_entries().len(),
                serialized_board@ == spec_lines_upto(self.spec_entries(), i as int),
            decreases self.spec_entries().len() - i,
        {
            proof {
                reveal_strlit(" ");
                reveal_strlit("\n");
            }
            let entry = &self.entries[i];
            serialized_board.append(entry.name.as_str());
            serialized_board.append(" ");
            let score_text = usize_to_decimal(entry.score);
            serialized_board.append(score_text.as_str());
            serialized_board.append("\n");
            proof {
                assert(serialized_board@ =~= spec_lines_upto(self.spec_entries(), i as int + 1));
            }
            i = i + 1;
        }
        serialized_board
    }

    /// The place `score` would take on the table: the first place held by a
    /// strictly lower score, the next free slot when no held place scores
    /// lower, or `None` when the table is full and every place scores at
    /// least as much. A tied score ranks below the existing equal scores
    /// (see `spec_place_from`).
    pub fn get_place_on_leaderboard(&self, score: usize) -> (r: Option<usize>)
        ensures
            spec_place_from(self.spec_entries(), score as int, 0) == (match r {
                Some(i) => Some(i as int),
                None => None::<int>,
            }),
            match r {
                Some(i) => {
                    &&& i <= self.spec_entries().len()
                    &&& (forall|j: int|
                        0 <= j < i ==> (#[trigger] self.spec_entries()[j]).score >= score)
                    &&& (i < self.spec_entries().len() ==> self.spec_entries()[i as int].score
                        < score)
                    &&& (i == self.spec_entries().len() ==> self.spec_entries().len() < 10)
                },
                None => {
                    &&& self.spec_entries().len() >= 10
                    &&& forall|j: int|
                        0 <= j < self.spec_entries().len() ==> (#[trigger] self.spec_entries()[j]).score
                            >= score
                },
            },
    {
        let ghost s = self.spec_entries();
        let mut i: usize = 0;
        while i < self.entries.len()
            invariant
                i <= s.len(),
                s == self.spec_entries(),
                spec_place_from(s, score as int, 0) == spec_place_from(s, score as int, i as int),
                forall|j: int| 0 <= j < i ==> (#[trigger] s[j]).score >= score,
            decreases s.len() - i,
        {
            if score > self.entries[i].score {
                return Some(i);
            }
            i = i + 1;
        }
        let next_slot = self.entries.len();
        if next_slot < 10 {
            return Some(next_slot);
        }
        None
    }

    /// Inserts a new entry at its rank and drops the last place when the
    /// table overflows. The score must qualify: the table has a free slot
    /// or a place held by a strictly lower score.
    pub fn add_score(&mut self, name: &str, score: usize)
        requires
            old(self).well_formed(),
            name@.len() == 3,
            old(self).spec_entries().len() < 10 || exists|j: int|
                0 <= j < old(self).spec_entries().len() && (#[trigger] old(
                    self,
                ).spec_entries()[j]).score < score,
        ensures
            final(self).well_formed(),
            spec_place_from(old(self).spec_entries(), score as int, 0) matches Some(place) && {
                let inserted = old(self).spec_entries().insert(
                    place,
                    LeaderboardEntry { name: final(self).spec_entries()[place].name, score },
                );
                &&& final(self).spec_entries()[place].name@ == name@
                &&& final(self).spec_entries() == (if inserted.len() > 10 {
                    inserted.drop_last()
                } else {
                    inserted
                })
            },
    {
        let ghost s0 = old(self).spec_entries();
        let place_opt = self.get_place_on_leaderboard(score);
        proof {
            if place_opt is None {
                assert(s0.len() == 10);
                let j = choose|j: int| 0 <= j < s0.len() && (#[trigger] s0[j]).score < score;
                assert(s0[j].score >= score);
            }
        }
        let place = place_opt.unwrap();
        let entry = LeaderboardEntry::new(name, score);
        self.entries.insert(place, entry);
        if self.entries.len() > 10 {
            self.entries.pop();
        }
        proof {
            let s1 = self.spec_entries();
            assert forall|i: int, j: int| 0 <= i < j < s1.len() implies (#[trigger] s1[i]).score
                >= (#[trigger] s1[j]).score by {
                let p = place as int;
                if j < p {
                } else if i < p && j == p {
                } else if i == p {
                    assert(s1[j] == s0[j - 1]);
                    if p < s0.len() {
                        assert(s0[p].score < score);
                        assert(s0[j - 1].score <= s0[p].score);
                    }
                } else if i > p {
                    assert(s1[i] == s0[i - 1]);
                    assert(s1[j] == s0[j - 1]);
                }
            }
        }
    }

    /// The entry at `index`, or `None` past the end of the table.
    pub fn entry<'a>(&'a self, index: usize) -> (r: Option<&'a LeaderboardEntry>)
        ensures
            match r {
                Some(e) => index < self.spec_entries().len() && *e
                    == self.spec_entries()[index as int],
                None => index >= self.spec_entries().len(),
            },
    {
        if index < self.entries.len() {
            Some(&self.entries[index])
        } else {
            None
        }
    }
}

} // verus!
