//! Catalog entries: one kanji with its readings and meanings.

use vstd::prelude::*;
use vstd::string::{StrSliceExecFns, StringExecFns};
use crate::clock::now_secs;
use crate::config::{ButtonTextOption, Config};
use crate::store::StatValue;

verus! {

/// One catalog entry.
#[derive(Clone, Debug)]
pub struct KanjiRecord {
    pub id: u32,
    pub kanji: char,
    pub jlpt: u8,
    pub joyo_reading: String,
    pub reading: String,
    pub on_reading: String,
    pub on_trans: String,
    pub kun_reading: String,
    pub kun_trans: String,
}

impl PartialEq for KanjiRecord {
    fn eq(&self, other: &KanjiRecord) -> (r: bool) {
        self.id == other.id
    }
}

impl vstd::std_specs::cmp::PartialEqSpecImpl for KanjiRecord {
    open spec fn obeys_eq_spec() -> bool {
        true
    }

    open spec fn eq_spec(&self, other: &KanjiRecord) -> bool {
        self.id == other.id
    }
}

/// Whether `c` has the Unicode property White_Space.
pub open spec fn is_white_space(c: char) -> bool {
    let u = c as u32;
    ||| 0x9 <= u <= 0xD
    ||| u == 0x20
    ||| u == 0x85
    ||| u == 0xA0
    ||| u == 0x1680
    ||| 0x2000 <= u <= 0x200A
    ||| u == 0x2028
    ||| u == 0x2029
    ||| u == 0x202F
    ||| u == 0x205F
    ||| u == 0x3000
}

/// `r` is `s` without its leading and trailing white space.
pub open spec fn is_trim_of(r: Seq<char>, s: Seq<char>) -> bool {
    exists|lo: int, hi: int| trim_bounds(s, lo, hi) && r == s.subrange(lo, hi)
}

/// `s[lo..hi]` is what remains of `s` without leading and trailing white space.
pub open spec fn trim_bounds(s: Seq<char>, lo: int, hi: int) -> bool {
    &&& 0 <= lo <= hi <= s.len()
    &&& forall|i: int| 0 <= i < lo ==> is_white_space(s[i])
    &&& forall|i: int| hi <= i < s.len() ==> is_white_space(s[i])
    &&& lo < hi ==> !is_white_space(s[lo]) && !is_white_space(s[hi - 1])
    &&& lo == hi ==> forall|i: int| 0 <= i < s.len() ==> is_white_space(s[i])
}

/// `s` without its leading and trailing white space.
pub open spec fn trimmed(s: Seq<char>) -> Seq<char> {
    choose|r: Seq<char>| is_trim_of(r, s)
}

/// There is one way to trim a text.
pub proof fn lemma_trim_unique(r: Seq<char>, s: Seq<char>)
    requires
        is_trim_of(r, s),
    ensures
        trimmed(s) == r,
{
    let t = trimmed(s);
    assert(is_trim_of(t, s));
    let (lo, hi) = choose|lo: int, hi: int| trim_bounds(s, lo, hi) && r == s.subrange(lo, hi);
    let (lo2, hi2) = choose|lo: int, hi: int| trim_bounds(s, lo, hi) && t == s.subrange(lo, hi);
    if lo < hi && lo2 < hi2 {
        assert(lo == lo2) by {
            if lo < lo2 {
                assert(is_white_space(s[lo]));
            } else if lo2 < lo {
                assert(is_white_space(s[lo2]));
            }
        }
        assert(hi == hi2) by {
            if hi < hi2 {
                assert(is_white_space(s[hi2 - 1]));
            } else if hi2 < hi {
                assert(is_white_space(s[hi - 1]));
            }
        }
    } else if lo < hi {
        assert(is_white_space(s[lo]));
    } else if lo2 < hi2 {
        assert(is_white_space(s[lo2]));
    } else {
        assert(r =~= t);
    }
}

/// Whether `c` has the Unicode property White_Space.
fn white_space(c: char) -> (r: bool)
    ensures
        r == is_white_space(c),
{
    let u = c as u32;
    (0x9 <= u && u <= 0xD) || u == 0x20 || u == 0x85 || u == 0xA0 || u == 0x1680 || (0x2000 <= u && u <= 0x200A)
        || u == 0x2028 || u == 0x2029 || u == 0x202F || u == 0x205F || u == 0x3000
}

/// `s` without its leading and trailing white space.
pub fn trim(s: &str) -> (r: String)
    ensures
        r@ == trimmed(s@),
{
    let n = s.unicode_len();
    let mut lo: usize = 0;
    while lo < n && white_space(s.get_char(lo))
        invariant
            lo <= n,
            n == s@.len(),
            forall|i: int| 0 <= i < lo ==> is_white_space(s@[i]),
        decreases n - lo,
    {
        lo = lo + 1;
    }
    let mut hi: usize = n;
    while hi > lo && white_space(s.get_char(hi - 1))
        invariant
            lo <= hi <= n,
            n == s@.len(),
            forall|i: int| hi <= i < n ==> is_white_space(s@[i]),
        decreases hi,
    {
        hi = hi - 1;
    }
    let r = String::from_str(s.substring_char(lo, hi));
    proof {
        assert(trim_bounds(s@, lo as int, hi as int));
        lemma_trim_unique(r@, s@);
    }
    r
}

/// The records `m` after kanji `k` was reviewed at `now`: its record, if it
/// has one, takes `now` as its review time; no record is created.
pub open spec fn reviewed_at(m: Map<char, StatValue>, k: char, now: u64) -> Map<char, StatValue> {
    if m.contains_key(k) {
        m.insert(k, StatValue { last_review_time: now, ..m[k] })
    } else {
        m
    }
}

/// Two readings joined by one space.
pub fn join_readings(on: &str, kun: &str) -> (r: String)
    ensures
        r@ == on@ + " "@ + kun@,
{
    let mut r = String::from_str(on);
    r.append(" ");
    r.append(kun);
    r
}

/// Longest meaning text, in characters, shown whole.
pub const MAX_STRING_LENGTH: usize = 100;

/// Whether `c` separates two meanings.
pub open spec fn is_separator(c: char) -> bool {
    c == ';' || c == ','
}

/// The meaning text from the trimmed on and kun translations, where `-`
/// stands for none: both, joined by `; `, when they differ; otherwise the
/// one there is.
pub open spec fn meaning_text(on: Seq<char>, kun: Seq<char>) -> Seq<char> {
    let left = on.len() > 0 && on != "-"@;
    let right = kun.len() > 0 && kun != "-"@;
    if left && right {
        if on == kun { on } else { on + "; "@ + kun }
    } else if left {
        on
    } else if right {
        kun
    } else {
        Seq::empty()
    }
}

/// `s` cut before its last separator when it is longer than
/// `MAX_STRING_LENGTH`; otherwise, or without a separator, `s` itself.
pub open spec fn shortened(s: Seq<char>) -> Seq<char> {
    if s.len() > MAX_STRING_LENGTH && exists|p: int| 0 <= p < s.len() && is_separator(s[p]) {
        let p = choose|p: int| 0 <= p < s.len() && is_separator(s[p]) && forall|q: int| p < q < s.len() ==> !is_separator(s[q]);
        s.subrange(0, p)
    } else {
        s
    }
}

/// The meaning text of two trimmed translations, shortened for a button.
pub fn join_meanings(on: &str, kun: &str) -> (r: String)
    ensures
        r@ == shortened(meaning_text(on@, kun@)),
{
    let dash = String::from_str("-");
    let on_s = String::from_str(on);
    let kun_s = String::from_str(kun);
    let left = on.unicode_len() > 0 && !(on_s == dash);
    let right = kun.unicode_len() > 0 && !(kun_s == dash);
    let built = if left && right {
        if on_s == kun_s {
            on_s
        } else {
            let mut b = on_s;
            b.append("; ");
            b.append(kun);
            b
        }
    } else if left {
        on_s
    } else if right {
        kun_s
    } else {
        String::new()
    };
    let ghost m = meaning_text(on@, kun@);
    assert(built@ == m);
    let n = built.as_str().unicode_len();
    if n <= MAX_STRING_LENGTH {
        return built;
    }
    let mut p: usize = n;
    while p > 0
        invariant
            p <= n,
            n == built@.len(),
            n > MAX_STRING_LENGTH,
            built@ == m,
            m == meaning_text(on@, kun@),
            forall|q: int| p <= q < n ==> !is_separator(built@[q]),
        decreases p,
    {
        let c = built.as_str().get_char(p - 1);
        if c == ';' || c == ',' {
            let cut = built.as_str().substring_char(0, p - 1);
            proof {
                lemma_shortened_at(built@, p - 1);
            }
            return String::from_str(cut);
        }
        p = p - 1;
    }
    built
}

/// Cutting at the last separator of a long text gives its shortened form.
proof fn lemma_shortened_at(s: Seq<char>, w: int)
    requires
        s.len() > MAX_STRING_LENGTH,
        0 <= w < s.len(),
        is_separator(s[w]),
        forall|q: int| w < q < s.len() ==> !is_separator(s[q]),
    ensures
        shortened(s) == s.subrange(0, w),
{
    let pc = choose|x: int| 0 <= x < s.len() && is_separator(s[x]) && forall|q: int| x < q < s.len() ==> !is_separator(s[q]);
    if pc < w {
        assert(!is_separator(s[w]));
    }
    if pc > w {
        assert(!is_separator(s[pc]));
    }
}

impl KanjiRecord {
    /// The text of an answer button for this entry: the trimmed joyo reading,
    /// the romaji readings, or the meaning, as `option` asks.
    pub fn button_text(&self, option: ButtonTextOption) -> (r: String)
        ensures
            r@ == match option {
                ButtonTextOption::Kana => trimmed(self.joyo_reading@),
                ButtonTextOption::Romaji => trimmed(self.on_reading@) + " "@ + trimmed(self.kun_reading@),
                ButtonTextOption::Meaning => shortened(meaning_text(trimmed(self.on_trans@), trimmed(self.kun_trans@))),
            },
    {
        match option {
            ButtonTextOption::Kana => trim(self.joyo_reading.as_str()),
            ButtonTextOption::Romaji => self.as_romaji(),
            ButtonTextOption::Meaning => self.as_meaning(),
        }
    }

    /// The meaning text of this entry, shortened for a button.
    pub fn as_meaning(&self) -> (r: String)
        ensures
            r@ == shortened(meaning_text(trimmed(self.on_trans@), trimmed(self.kun_trans@))),
    {
        let on = trim(self.on_trans.as_str());
        let kun = trim(self.kun_trans.as_str());
        join_meanings(on.as_str(), kun.as_str())
    }

    /// The on and kun readings, each trimmed, joined by one space.
    pub fn as_romaji(&self) -> (r: String)
        ensures
            r@ == trimmed(self.on_reading@) + " "@ + trimmed(self.kun_reading@),
    {
        let on = trim(self.on_reading.as_str());
        let kun = trim(self.kun_reading.as_str());
        join_readings(on.as_str(), kun.as_str())
    }

    /// Marks this kanji as reviewed at `now`, if it has a record; an unseen
    /// kanji gets none.
    pub fn update_review_date_at(&self, config: &mut Config, now: u64)
        ensures
            final(config).answer_statistics@ == reviewed_at(old(config).answer_statistics@, self.kanji, now),
            final(config).learning_index_threshold == old(config).learning_index_threshold,
            final(config).kanji_pool_max_size == old(config).kanji_pool_max_size,
            final(config).review_interval_step == old(config).review_interval_step,
            final(config).profile == old(config).profile,
            final(config).was_used_last == old(config).was_used_last,
            final(config).button_text_option == old(config).button_text_option,
    {
        match config.answer_statistics.get(self.kanji) {
            Some(v) => config.answer_statistics.insert(self.kanji, StatValue { last_review_time: now, ..v }),
            None => {},
        }
    }

    /// Marks this kanji as reviewed now, if it has a record.
    pub fn update_review_date(&self, config: &mut Config)
        ensures
            exists|now: u64| final(config).answer_statistics@ == #[trigger] reviewed_at(old(config).answer_statistics@, self.kanji, now),
            final(config).learning_index_threshold == old(config).learning_index_threshold,
            final(config).kanji_pool_max_size == old(config).kanji_pool_max_size,
            final(config).review_interval_step == old(config).review_interval_step,
            final(config).profile == old(config).profile,
            final(config).was_used_last == old(config).was_used_last,
            final(config).button_text_option == old(config).button_text_option,
    {
        let now = now_secs();
        let ghost before = config.answer_statistics@;
        self.update_review_date_at(config, now);
        assert(config.answer_statistics@ == reviewed_at(before, self.kanji, now));
    }
}

} // verus!
