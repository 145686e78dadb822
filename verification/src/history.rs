use vstd::prelude::*;

use crate::operator::{operator_symbol, Operator};
use crate::text::push_char;

verus! {

broadcast use vstd::string::group_string_axioms;

/// The number of decimal digits in the index part of a history key.
pub const KEY_DIGITS: usize = 20;

/// The character of a decimal digit `d` (`0 <= d < 10`).
pub open spec fn digit_char(d: nat) -> char {
    (d + 48) as char
}

/// The last `width` decimal digits of `n`, most significant first, padded
/// with leading zeros.
pub open spec fn padded_decimal(n: nat, width: nat) -> Seq<char>
    decreases width,
{
    if width == 0 {
        Seq::empty()
    } else {
        padded_decimal(n / 10, (width - 1) as nat).push(digit_char(n % 10))
    }
}

/// The key prefix under which every history record is stored.
pub open spec fn history_prefix() -> Seq<char> {
    seq!['h', 'i', 's', 't', 'o', 'r', 'y', '/']
}

/// The key of the history record at position `index`: the prefix followed
/// by the index, zero-padded to twenty digits.
pub open spec fn history_key_of(index: nat) -> Seq<char> {
    history_prefix() + padded_decimal(index, KEY_DIGITS as nat)
}

/// `a` comes strictly before `b` in lexicographic order of code points.
pub open spec fn precedes(a: Seq<char>, b: Seq<char>) -> bool {
    ||| exists|k: int| #[trigger] first_difference_at(a, b, k)
    ||| (a.len() < b.len() && a == b.take(a.len() as int))
}

fn digit_to_char(d: u64) -> (c: char)
    requires
        d < 10,
    ensures
        c == digit_char(d as nat),
{
    let b: u8 = (d as u8) + 48;
    b as char
}

fn push_padded_decimal(s: &mut String, n: u64, width: usize)
    ensures
        final(s)@ == old(s)@ + padded_decimal(n as nat, width as nat),
    decreases width,
{
    if width > 0 {
        push_padded_decimal(s, n / 10, width - 1);
        push_char(s, digit_to_char(n % 10));
        proof {
            assert(old(s)@ + padded_decimal(n as nat, width as nat) == (old(s)@ + padded_decimal(
                (n / 10) as nat,
                (width - 1) as nat,
            )).push(digit_char((n % 10) as nat)));
        }
    } else {
        proof { assert(old(s)@ + Seq::<char>::empty() == old(s)@); }
    }
}

/// The key under which the record at position `index` is stored:
/// `history/` followed by the index with twenty digits.
pub fn history_key(index: usize) -> (key: String)
    ensures
        key@ == history_key_of(index as nat),
{
    let mut key = String::from_str("history/");
    proof { reveal_strlit("history/"); assert("history/"@ == history_prefix()); }
    push_padded_decimal(&mut key, index as u64, KEY_DIGITS);
    key
}


/// Ten to the power `n`.
pub open spec fn pow10(n: nat) -> nat
    decreases n,
{
    if n == 0 {
        1
    } else {
        10 * pow10((n - 1) as nat)
    }
}

/// `a` and `b` first differ at position `k`, where `a` has the smaller code point.
pub open spec fn first_difference_at(a: Seq<char>, b: Seq<char>, k: int) -> bool {
    0 <= k < a.len() && k < b.len() && a.take(k) == b.take(k) && (a[k] as u32) < (b[k] as u32)
}

proof fn lemma_digit_char_order(d: nat, e: nat)
    requires
        d < e < 10,
    ensures
        (digit_char(d) as u32) < (digit_char(e) as u32),
{
}

proof fn lemma_div_mod_order(i: nat, j: nat)
    requires
        i < j,
    ensures
        i / 10 <= j / 10,
        i / 10 == j / 10 ==> i % 10 < j % 10,
{
    assert(i / 10 <= j / 10) by (nonlinear_arith)
        requires
            i < j,
    ;
    assert(i / 10 == j / 10 ==> i % 10 < j % 10) by (nonlinear_arith)
        requires
            i < j,
    ;
}

proof fn lemma_padded_decimal_len(n: nat, w: nat)
    ensures
        padded_decimal(n, w).len() == w,
    decreases w,
{
    if w > 0 {
        lemma_padded_decimal_len(n / 10, (w - 1) as nat);
    }
}

/// Zero-padding keeps numeric order: below `10^w`, a smaller number has
/// the lexicographically smaller `w`-digit rendering.
proof fn lemma_padded_decimal_order(i: nat, j: nat, w: nat) -> (k: int)
    requires
        i < j < pow10(w),
    ensures
        first_difference_at(padded_decimal(i, w), padded_decimal(j, w), k),
    decreases w,
{
    let a = padded_decimal(i, w);
    let b = padded_decimal(j, w);
    let w1 = (w - 1) as nat;
    let a1 = padded_decimal(i / 10, w1);
    let b1 = padded_decimal(j / 10, w1);
    lemma_padded_decimal_len(i / 10, w1);
    lemma_padded_decimal_len(j / 10, w1);
    lemma_div_mod_order(i, j);
    assert(j / 10 < pow10(w1)) by (nonlinear_arith)
        requires
            j < 10 * pow10(w1),
    ;
    if i / 10 == j / 10 {
        lemma_digit_char_order(i % 10, j % 10);
        assert(a.take(w1 as int) == a1);
        assert(b.take(w1 as int) == b1);
        w1 as int
    } else {
        let k1 = lemma_padded_decimal_order(i / 10, j / 10, w1);
        assert(a.take(k1) == a1.take(k1));
        assert(b.take(k1) == b1.take(k1));
        k1
    }
}

/// Keys follow insertion order: the record written at a smaller position
/// has the key that comes first in the ordered key space, so a listing of
/// the `history/` prefix returns the records in the order they were made.
/// In particular no two positions share a key.
pub proof fn lemma_history_keys_follow_insertion_order(i: usize, j: usize)
    requires
        i < j,
    ensures
        precedes(history_key_of(i as nat), history_key_of(j as nat)),
        history_key_of(i as nat) != history_key_of(j as nat),
{
    reveal_with_fuel(pow10, 21);
    assert(pow10(20) == 100000000000000000000nat);
    let k = lemma_padded_decimal_order(i as nat, j as nat, 20);
    let p = history_prefix();
    let a = padded_decimal(i as nat, 20);
    let b = padded_decimal(j as nat, 20);
    let ka = p + a;
    let kb = p + b;
    let kk: int = k + p.len();
    assert(ka.take(kk) == p + a.take(k));
    assert(kb.take(kk) == p + b.take(k));
    assert(ka[kk] == a[k]);
    assert(kb[kk] == b[k]);
    assert(first_difference_at(ka, kb, kk));
    assert(ka[kk] != kb[kk]);
}


/// How many of the latest calculations are shown above the keypad.
pub const RECENT_SHOWN: usize = 3;

/// The text of a history entry: `left op right = result`, with the
/// numbers as they are displayed.
pub open spec fn entry_text_of(
    left: Seq<char>,
    operator: Operator,
    right: Seq<char>,
    result: Seq<char>,
) -> Seq<char> {
    left + seq![' '] + operator_symbol(operator) + seq![' '] + right + seq![' ', '=', ' '] + result
}

/// The texts carried by the records that have one, in the records' order.
pub open spec fn present_texts(records: Seq<Option<Seq<char>>>) -> Seq<Seq<char>>
    decreases records.len(),
{
    if records.len() == 0 {
        Seq::empty()
    } else {
        let rest = present_texts(records.drop_last());
        match records.last() {
            Some(t) => rest.push(t),
            None => rest,
        }
    }
}

/// The view of an optional text.
pub open spec fn optional_text(record: Option<String>) -> Option<Seq<char>> {
    match record {
        Some(t) => Some(t@),
        None => None,
    }
}

/// The lines joined with a line break between each two.
pub open spec fn joined_lines(lines: Seq<Seq<char>>) -> Seq<char>
    decreases lines.len(),
{
    if lines.len() == 0 {
        Seq::empty()
    } else if lines.len() == 1 {
        lines[0]
    } else {
        joined_lines(lines.drop_last()) + seq!['\n'] + lines.last()
    }
}

/// The last `n` entries (all of them when there are fewer), oldest first.
pub open spec fn latest(entries: Seq<Seq<char>>, n: nat) -> Seq<Seq<char>> {
    if entries.len() <= n {
        entries
    } else {
        entries.skip(entries.len() - n)
    }
}

/// Formats one calculation for the history: `left op right = result`.
pub fn entry_text(left: &str, operator: Operator, right: &str, result: &str) -> (text: String)
    ensures
        text@ == entry_text_of(left@, operator, right@, result@),
{
    let mut text = String::from_str(left);
    text.append(" ");
    text.append(operator.symbol());
    text.append(" ");
    text.append(right);
    text.append(" = ");
    text.append(result);
    proof {
        reveal_strlit(" ");
        reveal_strlit(" = ");
    }
    text
}

/// A history record that is ready to be stored: its key and its text, for
/// the position at which it was prepared.
pub struct PendingRecord {
    key: String,
    text: String,
    position: usize,
}

impl PendingRecord {
    /// The record's key is the key of its position.
    #[verifier::type_invariant]
    spec fn key_matches_position(self) -> bool {
        self.key@ == history_key_of(self.position as nat)
    }

    /// The key under which the record is to be stored.
    pub closed spec fn key_view(self) -> Seq<char> {
        self.key@
    }

    /// The text of the entry.
    pub closed spec fn text_view(self) -> Seq<char> {
        self.text@
    }

    /// The key under which the record is to be stored.
    pub fn key(&self) -> (key: &str)
        ensures
            key@ == self.key_view(),
    {
        self.key.as_str()
    }

    /// The text of the entry.
    pub fn text(&self) -> (text: &str)
        ensures
            text@ == self.text_view(),
    {
        self.text.as_str()
    }
}

/// The calculation history, oldest entry first.
pub struct HistoryStore {
    entries: Vec<String>,
}

impl View for HistoryStore {
    type V = Seq<Seq<char>>;

    closed spec fn view(&self) -> Seq<Seq<char>> {
        self.entries@.map_values(|e: String| e@)
    }
}

impl HistoryStore {
    /// Builds the history from the stored records, listed in key order;
    /// `None` stands for a record without a text, which is skipped.
    pub fn from_records(records: Vec<Option<String>>) -> (store: Self)
        ensures
            store@ == present_texts(records@.map_values(|r: Option<String>| optional_text(r))),
    {
        let ghost rs = records@.map_values(|r: Option<String>| optional_text(r));
        let mut entries: Vec<String> = Vec::new();
        let n: usize = records.len();
        let mut i: usize = 0;
        while i < n
            invariant
                n == records@.len(),
                rs == records@.map_values(|r: Option<String>| optional_text(r)),
                i <= n,
                entries@.map_values(|e: String| e@) == present_texts(rs.take(i as int)),
            decreases n - i,
        {
            proof {
                assert(rs.take(i + 1).drop_last() == rs.take(i as int));
            }
            match &records[i] {
                Some(t) => {
                    entries.push(t.clone());
                    proof {
                        assert(entries@.map_values(|e: String| e@) == present_texts(rs.take(i as int)).push(t@));
                    }
                },
                None => {},
            }
            i = i + 1;
        }
        proof { assert(rs.take(n as int) == rs); }
        HistoryStore { entries }
    }

    /// The number of entries.
    pub fn len(&self) -> (n: usize)
        ensures
            n == self@.len(),
    {
        self.entries.len()
    }

    /// Prepares the record of a calculation: the key of the next position
    /// and the entry's text. The history is unchanged until the record is
    /// confirmed.
    pub fn prepare_record(
        &self,
        left: &str,
        operator: Operator,
        right: &str,
        result: &str,
    ) -> (record: PendingRecord)
        ensures
            record.key_view() == history_key_of(self@.len()),
            record.text_view() == entry_text_of(left@, operator, right@, result@),
    {
        let position = self.entries.len();
        let key = history_key(position);
        let text = entry_text(left, operator, right, result);
        PendingRecord { key, text, position }
    }

    /// Appends the text of a record that has been stored, when the record
    /// was prepared for the next position (its key is the key of that
    /// position), so that entry `i` is always the one stored under key `i`.
    /// A record prepared for another position is refused and the history
    /// stays as it is.
    pub fn confirm_record(&mut self, record: PendingRecord) -> (accepted: bool)
        ensures
            accepted == (record.key_view() == history_key_of(old(self)@.len())),
            accepted ==> final(self)@ == old(self)@.push(record.text_view()),
            !accepted ==> final(self)@ == old(self)@,
    {
        proof {
            use_type_invariant(&record);
            if record.position != self.entries.len() {
                if record.position < self.entries.len() {
                    lemma_history_keys_follow_insertion_order(record.position, self.entries.len());
                } else {
                    lemma_history_keys_follow_insertion_order(self.entries.len(), record.position);
                }
            }
        }
        if record.position != self.entries.len() {
            return false;
        }
        let PendingRecord { key: _, text, position: _ } = record;
        let ghost t = text@;
        self.entries.push(text);
        proof {
            assert(self.entries@.map_values(|e: String| e@) == old(self).entries@.map_values(
                |e: String| e@,
            ).push(t));
        }
        true
    }

    /// A copy of the entries, oldest first.
    pub fn entries(&self) -> (entries: Vec<String>)
        ensures
            entries@.map_values(|e: String| e@) == self@,
    {
        let mut res: Vec<String> = Vec::new();
        let n: usize = self.entries.len();
        let mut i: usize = 0;
        while i < n
            invariant
                n == self.entries@.len(),
                i <= n,
                res@.map_values(|e: String| e@) == self@.take(i as int),
            decreases n - i,
        {
            let e = self.entries[i].clone();
            proof {
                assert(e@ == self@[i as int]);
                assert(self@.take(i + 1) == self@.take(i as int).push(e@));
            }
            res.push(e);
            proof {
                assert(res@.map_values(|e: String| e@) == self@.take(i + 1));
            }
            i = i + 1;
        }
        proof { assert(self@.take(n as int) == self@); }
        res
    }

    /// The latest entries, at most three, oldest first, one per line.
    pub fn recent_text(&self) -> (text: String)
        ensures
            text@ == joined_lines(latest(self@, RECENT_SHOWN as nat)),
    {
        let n: usize = self.entries.len();
        let start: usize = if n <= RECENT_SHOWN { 0 } else { n - RECENT_SHOWN };
        let ghost shown = latest(self@, RECENT_SHOWN as nat);
        proof {
            assert(shown == self@.skip(start as int));
        }
        let mut text = String::new();
        let mut i: usize = start;
        while i < n
            invariant
                n == self.entries@.len(),
                start <= i <= n,
                shown == self@.skip(start as int),
                text@ == joined_lines(self@.subrange(start as int, i as int)),
            decreases n - i,
        {
            proof {
                assert(self@.subrange(start as int, i + 1).drop_last() == self@.subrange(start as int, i as int));
            }
            if i > start {
                text.append("\n");
                proof { reveal_strlit("\n"); }
            } else {
                proof { assert(text@ == Seq::<char>::empty()); }
            }
            text.append(self.entries[i].as_str());
            i = i + 1;
        }
        proof { assert(self@.subrange(start as int, n as int) == shown); }
        text
    }
}

/// Reading back what was recorded: records listed in key order, each with
/// the text it was stored with, rebuild exactly the entries, in order.
pub proof fn lemma_reopening_restores_entries(texts: Seq<Seq<char>>)
    ensures
        present_texts(texts.map_values(|t: Seq<char>| Some(t))) == texts,
    decreases texts.len(),
{
    let records = texts.map_values(|t: Seq<char>| Some(t));
    if texts.len() > 0 {
        lemma_reopening_restores_entries(texts.drop_last());
        assert(records.drop_last() == texts.drop_last().map_values(|t: Seq<char>| Some(t)));
        assert(texts.drop_last().push(texts.last()) == texts);
    } else {
        assert(texts == Seq::<Seq<char>>::empty());
    }
}


/// The latest entries are exactly the last `min(len, n)` entries, in their
/// order: with more than `n` entries, the last `n` of them.
pub proof fn lemma_latest_is_the_last_entries(entries: Seq<Seq<char>>, n: nat)
    ensures
        latest(entries, n).len() == (if entries.len() < n { entries.len() } else { n }),
        latest(entries, n) == entries.subrange(
            entries.len() - latest(entries, n).len(),
            entries.len() as int,
        ),
        forall|i: int|
            0 <= i < latest(entries, n).len() ==> #[trigger] latest(entries, n)[i] == entries[entries.len()
                - latest(entries, n).len() + i],
{
    if entries.len() <= n {
        assert(entries.subrange(0, entries.len() as int) == entries);
    }
}

/// With more than three entries the text above the keypad is the last
/// three entries, oldest first, separated by line breaks.
pub proof fn lemma_recent_text_of_many_entries(entries: Seq<Seq<char>>)
    requires
        entries.len() > 3,
    ensures
        joined_lines(latest(entries, RECENT_SHOWN as nat)) == entries[entries.len() - 3] + seq!['\n']
            + entries[entries.len() - 2] + seq!['\n'] + entries[entries.len() - 1],
{
    let l = latest(entries, 3);
    lemma_latest_is_the_last_entries(entries, 3);
    reveal_with_fuel(joined_lines, 3);
    assert(l.drop_last().drop_last().len() == 1);
    assert(l.drop_last().drop_last()[0] == entries[entries.len() - 3]);
    assert(l.drop_last().last() == entries[entries.len() - 2]);
    assert(l.last() == entries[entries.len() - 1]);
}

/// The entry text shows the left operand, the operator's sign and the right
/// operand exactly as given, each separated by a space, then ` = ` and the
/// result: the right operand is found verbatim right after the sign.
pub proof fn lemma_entry_text_shows_the_calculation(
    left: Seq<char>,
    operator: Operator,
    right: Seq<char>,
    result: Seq<char>,
)
    ensures
        entry_text_of(left, operator, right, result) == left + " "@ + operator_symbol(operator)
            + " "@ + right + " = "@ + result,
        ({
            let text = entry_text_of(left, operator, right, result);
            let start: int = left.len() + operator_symbol(operator).len() + 2int;
            &&& text.subrange(0, left.len() as int) == left
            &&& text.subrange(start, start + right.len()) == right
            &&& text.subrange(start + right.len(), text.len() as int) == " = "@ + result
        }),
        operator == Operator::Add ==> operator_symbol(operator) == "+"@,
        operator == Operator::Subtract ==> operator_symbol(operator) == "\u{2212}"@,
        operator == Operator::Multiply ==> operator_symbol(operator) == "\u{00d7}"@,
        operator == Operator::Divide ==> operator_symbol(operator) == "\u{00f7}"@,
{
    reveal_strlit(" ");
    reveal_strlit(" = ");
    reveal_strlit("+");
    reveal_strlit("\u{2212}");
    reveal_strlit("\u{00d7}");
    reveal_strlit("\u{00f7}");
    let text = entry_text_of(left, operator, right, result);
    let sign = operator_symbol(operator);
    let start: int = left.len() + sign.len() + 2int;
    assert(text == left + " "@ + sign + " "@ + right + " = "@ + result);
    assert(text.subrange(0, left.len() as int) == left);
    assert(text.subrange(start, start + right.len()) == right);
    assert(text.subrange(start + right.len(), text.len() as int) == " = "@ + result);
}


/// The number written by decimal digit characters, most significant first.
pub open spec fn digits_value(digits: Seq<char>) -> int
    decreases digits.len(),
{
    if digits.len() == 0 {
        0
    } else {
        digits_value(digits.drop_last()) * 10 + ((digits.last() as u32) - 48)
    }
}

/// A character is a decimal digit.
pub open spec fn is_digit_char(c: char) -> bool {
    48 <= (c as u32) <= 57
}

proof fn lemma_padded_decimal_value(n: nat, w: nat)
    requires
        n < pow10(w),
    ensures
        digits_value(padded_decimal(n, w)) == n,
        forall|i: int| 0 <= i < w ==> #[trigger] is_digit_char(padded_decimal(n, w)[i]),
    decreases w,
{
    if w == 0 {
        assert(padded_decimal(n, w).len() == 0);
    } else {
        let w1 = (w - 1) as nat;
        assert(n / 10 < pow10(w1)) by (nonlinear_arith)
            requires
                n < 10 * pow10(w1),
        ;
        lemma_padded_decimal_value(n / 10, w1);
        lemma_padded_decimal_len(n / 10, w1);
        let p = padded_decimal(n, w);
        assert(p.drop_last() == padded_decimal(n / 10, w1));
        assert((n / 10) * 10 + n % 10 == n) by (nonlinear_arith);
        assert forall|i: int| 0 <= i < w implies #[trigger] is_digit_char(p[i]) by {
            if i < w1 {
                assert(p[i] == padded_decimal(n / 10, w1)[i]);
            }
        }
    }
}

/// A history key is `history/` followed by exactly twenty decimal digits
/// that read back as the position it was made for.
pub proof fn lemma_history_key_reads_back(index: usize)
    ensures
        history_key_of(index as nat).len() == 28,
        history_key_of(index as nat).subrange(0, 8) == "history/"@,
        forall|i: int| 8 <= i < 28 ==> #[trigger] is_digit_char(history_key_of(index as nat)[i]),
        digits_value(history_key_of(index as nat).subrange(8, 28)) == index,
{
    reveal_strlit("history/");
    reveal_with_fuel(pow10, 21);
    assert(pow10(20) == 100000000000000000000nat);
    lemma_padded_decimal_value(index as nat, 20);
    lemma_padded_decimal_len(index as nat, 20);
    let k = history_key_of(index as nat);
    let d = padded_decimal(index as nat, 20);
    assert(k.subrange(0, 8) == history_prefix());
    assert(k.subrange(8, 28) == d);
    assert forall|i: int| 8 <= i < 28 implies #[trigger] is_digit_char(k[i]) by {
        assert(k[i] == d[i - 8]);
    }
}

/// Reading records one at a time: a record without a text adds nothing,
/// a record with a text adds that text after the others.
pub proof fn lemma_reading_one_more_record(records: Seq<Option<Seq<char>>>, text: Seq<char>)
    ensures
        present_texts(records.push(None)) == present_texts(records),
        present_texts(records.push(Some(text))) == present_texts(records).push(text),
{
    assert(records.push(None).drop_last() == records);
    assert(records.push(Some(text)).drop_last() == records);
}

} // verus!
