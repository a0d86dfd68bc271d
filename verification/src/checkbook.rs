//! A checkbook: a starting balance and the checks drawn on it, read from
//! text and reported with the balance after each check, the total and the
//! average expense. Amounts are counted in hundredths.

use vstd::prelude::*;
use crate::money::{
    amount_of,
    balance_of,
    hundredths,
    is_numeral,
    money_text,
    point_of,
    read_hundredths,
    write_money,
};
use crate::pattern::{all_replaced, captures, first_groups, replace_all};
use crate::text::{
    append_chars,
    append_str,
    chars_of,
    join_chars,
    joined,
    lines,
    lines_of,
    string_of,
    texts,
};

verus! {

/// The pattern of what is struck from a line: everything but letters, digits,
/// underscores, spaces and full stops.
pub open spec fn strip_pattern() -> Seq<char> {
    "[^\\w \\.]"@
}

/// The pattern of a check: its number, its category and its amount.
pub open spec fn check_pattern() -> Seq<char> {
    "(\\d+) (.+) (\\d*\\.\\d*)"@
}

/// A check as it stands in the book.
pub struct Entry {
    pub check_number: Seq<char>,
    pub category: Seq<char>,
    pub amount: u32,
}

/// A check: its number, what it paid for, and its amount in hundredths.
#[derive(Debug)]
pub struct Transaction {
    pub check_number: String,
    pub category: String,
    pub amount: u32,
}

impl View for Transaction {
    type V = Entry;

    open spec fn view(&self) -> Entry {
        Entry {
            check_number: self.check_number@,
            category: self.category@,
            amount: self.amount,
        }
    }
}

/// The check that the groups of a match of the pattern of a check stand for:
/// the first group is its number, the second its category, the third its
/// amount. `None` where a group is missing or the third writes no amount.
pub open spec fn entry_of(groups: Seq<Option<Seq<char>>>) -> Option<Entry> {
    if groups.len() >= 4 && groups[1] is Some && groups[2] is Some && groups[3] is Some
        && amount_of(groups[3].unwrap()) is Some {
        Some(
            Entry {
                check_number: groups[1].unwrap(),
                category: groups[2].unwrap(),
                amount: amount_of(groups[3].unwrap()).unwrap(),
            },
        )
    } else {
        None
    }
}

/// The check that a line writes: the line is stripped of what matches the
/// pattern of what is struck, and searched for the pattern of a check.
pub open spec fn transaction_of(line: Seq<char>) -> Option<Entry> {
    match all_replaced(strip_pattern(), line, ""@) {
        Some(stripped) => match first_groups(check_pattern(), stripped) {
            Some(Some(groups)) => entry_of(groups),
            _ => None,
        },
        None => None,
    }
}

/// Reads an amount: a decimal numeral with its decimal point.
pub fn read_amount(text: &str) -> (amount: Option<u32>)
    ensures
        amount == amount_of(text@),
{
    let chars = chars_of(text);
    assert(chars@.skip(0) =~= chars@);
    match read_hundredths(&chars, 0) {
        Some((value, true)) => Some(value),
        _ => None,
    }
}

/// Reads a balance: a decimal numeral after an optional sign.
pub fn read_balance(text: &str) -> (balance: Option<i64>)
    ensures
        balance == balance_of(text@),
{
    let chars = chars_of(text);
    let signed = chars.len() > 0 && (chars[0] == '-' || chars[0] == '+');
    let from: usize = if signed {
        1
    } else {
        0
    };
    assert(chars@.skip(0) =~= chars@);
    match read_hundredths(&chars, from) {
        Some((value, _)) => {
            if chars[0] == '-' {
                Some(-(value as i64))
            } else {
                Some(value as i64)
            }
        },
        None => None,
    }
}

/// Reads a check from the groups of a match of the pattern of a check.
pub fn transaction_from_groups(groups: &Vec<Option<String>>) -> (read: Option<Transaction>)
    ensures
        match read {
            Some(transaction) => entry_of(groups.deep_view()) == Some(transaction@),
            None => entry_of(groups.deep_view()).is_none(),
        },
{
    if groups.len() < 4 {
        return None;
    }
    assert(groups.deep_view()[1] == groups[1].deep_view());
    assert(groups.deep_view()[2] == groups[2].deep_view());
    assert(groups.deep_view()[3] == groups[3].deep_view());
    match (&groups[1], &groups[2], &groups[3]) {
        (Some(check_number), Some(category), Some(amount)) => {
            match read_amount(amount.as_str()) {
                Some(amount) => Some(
                    Transaction {
                        check_number: check_number.clone(),
                        category: category.clone(),
                        amount,
                    },
                ),
                None => None,
            }
        },
        _ => None,
    }
}

impl Transaction {
    /// The check written out: its number, its category and its amount.
    pub open spec fn text(self) -> Seq<char> {
        self.check_number@ + " "@ + self.category@ + " "@ + money_text(self.amount as int)
    }

    /// Reads a check from a line of the book.
    pub fn from_line(line: &str) -> (read: Option<Transaction>)
        ensures
            match read {
                Some(transaction) => transaction_of(line@) == Some(transaction@),
                None => transaction_of(line@).is_none(),
            },
    {
        let stripped_line = match replace_all("[^\\w \\.]", line, "") {
            Some(stripped) => stripped,
            None => { return None; },
        };
        match captures("(\\d+) (.+) (\\d*\\.\\d*)", stripped_line.as_str()) {
            Some(Some(groups)) => transaction_from_groups(&groups),
            _ => None,
        }
    }

    /// Writes the check out: its number, its category and its amount.
    pub fn to_string(&self) -> (text: String)
        ensures
            text@ == self.text(),
    {
        let mut text = chars_of(self.check_number.as_str());
        append_str(&mut text, " ");
        append_str(&mut text, self.category.as_str());
        append_str(&mut text, " ");
        append_chars(&mut text, &write_money(self.amount as i128));
        string_of(&text)
    }
}

/// What a list of checks holds.
pub open spec fn entries_of(transactions: Seq<Transaction>) -> Seq<Entry> {
    transactions.map_values(|t: Transaction| t@)
}

/// The sum of the amounts of the first `n` checks.
pub open spec fn spent(entries: Seq<Entry>, n: int) -> nat
    decreases n,
{
    if n <= 0 {
        0
    } else {
        spent(entries, n - 1) + (entries[n - 1].amount as nat)
    }
}

/// The line of the report for the check at position `i`: the check, and the
/// balance after it.
pub open spec fn entry_line(start: int, entries: Seq<Entry>, i: int) -> Seq<char> {
    entries[i].check_number + " "@ + entries[i].category + " "@ + money_text(
        entries[i].amount as int,
    ) + " Balance "@ + money_text(start - spent(entries, i + 1))
}

/// The average of `count` expenses that sum to `total`, to the nearest
/// hundredth; a half counts up. Without expenses there is none.
pub open spec fn average_text(total: nat, count: nat) -> Seq<char> {
    if count == 0 {
        "NaN"@
    } else {
        money_text(((2 * total + count) / (2 * count)) as int)
    }
}

/// The lines of the report: the balance at the start, each check with the
/// balance after it, the total and the average expense.
pub open spec fn report_lines(start: int, entries: Seq<Entry>) -> Seq<Seq<char>> {
    seq!["Original_Balance: "@ + money_text(start)] + Seq::new(
        entries.len(),
        |i: int| entry_line(start, entries, i),
    ) + seq![
        "Total expense "@ + money_text(spent(entries, entries.len() as int) as int),
        "Average expense "@ + average_text(spent(entries, entries.len() as int), entries.len()),
    ]
}

/// A checkbook: the balance at the start in hundredths, and the checks in
/// the order in which they were drawn.
#[derive(Debug)]
pub struct Checkbook {
    pub starting_balance: i64,
    pub transactions: Vec<Transaction>,
}

/// The balance and the checks that a text writes: its first line is the
/// balance at the start, every other line a check. `None` where there is no
/// first line, or a line cannot be read.
pub open spec fn checkbook_of(input: Seq<char>) -> Option<(i64, Seq<Entry>)> {
    let lines = lines_of(input);
    if lines.len() >= 1 && balance_of(lines[0]) is Some && (forall|i: int|
        1 <= i < lines.len() ==> transaction_of(#[trigger] lines[i]) is Some) {
        Some(
            (
                balance_of(lines[0]).unwrap(),
                Seq::new(
                    (lines.len() - 1) as nat,
                    |i: int| transaction_of(lines[i + 1]).unwrap(),
                ),
            ),
        )
    } else {
        None
    }
}

/// The report of the checkbook that a text writes.
pub open spec fn report_of(input: Seq<char>) -> Seq<char> {
    joined(report_lines(checkbook_of(input).unwrap().0 as int, checkbook_of(input).unwrap().1), "\n"@)
}

/// The sum of a few amounts is no larger than as many largest amounts.
pub proof fn lemma_spent_bound(entries: Seq<Entry>, n: int)
    requires
        0 <= n <= entries.len(),
    ensures
        spent(entries, n) <= n * 0xFFFF_FFFF,
    decreases n,
{
    if n > 0 {
        lemma_spent_bound(entries, n - 1);
        assert((n - 1) * 0xFFFF_FFFF + 0xFFFF_FFFF == n * 0xFFFF_FFFF) by (nonlinear_arith);
    }
}

impl Checkbook {
    /// Reads a checkbook from text: the balance at the start on the first
    /// line, a check on every other line.
    pub fn read(input: &str) -> (read: Option<Checkbook>)
        ensures
            match read {
                Some(book) => checkbook_of(input@) == Some(
                    (book.starting_balance, entries_of(book.transactions@)),
                ),
                None => checkbook_of(input@).is_none(),
            },
    {
        let all = lines(&chars_of(input));
        let ghost found = lines_of(input@);
        if all.len() == 0 {
            return None;
        }
        assert(found[0] == all@[0]@);
        let starting_balance = match read_balance(string_of(&all[0]).as_str()) {
            Some(balance) => balance,
            None => { return None; },
        };
        let mut transactions: Vec<Transaction> = Vec::new();
        let mut i: usize = 1;
        while i < all.len()
            invariant
                1 <= i <= all.len(),
                found == texts(all@),
                found == lines_of(input@),
                transactions.len() == i - 1,
                forall|k: int|
                    1 <= k < i ==> transaction_of(#[trigger] found[k]) == Some(
                        transactions@[k - 1]@,
                    ),
            decreases all.len() - i,
        {
            assert(found[i as int] == all@[i as int]@);
            match Transaction::from_line(string_of(&all[i]).as_str()) {
                Some(transaction) => {
                    transactions.push(transaction);
                },
                None => { return None; },
            }
            i += 1;
        }
        assert(entries_of(transactions@) =~= Seq::new(
            (found.len() - 1) as nat,
            |i: int| transaction_of(found[i + 1]).unwrap(),
        ));
        Some(Checkbook { starting_balance, transactions })
    }

    /// Writes the report of the checkbook, its lines separated by line feeds.
    pub fn report(&self) -> (text: String)
        ensures
            text@ == joined(
                report_lines(self.starting_balance as int, entries_of(self.transactions@)),
                "\n"@,
            ),
    {
        let ghost entries = entries_of(self.transactions@);
        let ghost start = self.starting_balance as int;
        let mut output: Vec<Vec<char>> = Vec::new();
        let mut first = chars_of("Original_Balance: ");
        append_chars(&mut first, &write_money(self.starting_balance as i128));
        output.push(first);
        let mut current_balance: i128 = self.starting_balance as i128;
        let mut total_expense: u128 = 0;
        let mut i: usize = 0;
        while i < self.transactions.len()
            invariant
                i <= self.transactions.len(),
                entries == entries_of(self.transactions@),
                start == self.starting_balance,
                total_expense == spent(entries, i as int),
                current_balance == start - total_expense,
                output.len() == i + 1,
                output@[0]@ == "Original_Balance: "@ + money_text(start),
                forall|k: int|
                    0 <= k < i ==> (#[trigger] output@[k + 1])@ == entry_line(start, entries, k),
            decreases self.transactions.len() - i,
        {
            let transaction = &self.transactions[i];
            proof {
                lemma_spent_bound(entries, i as int);
                assert(i * 0xFFFF_FFFF <= 0xFFFF_FFFF_FFFF_FFFF * 0xFFFF_FFFF) by (nonlinear_arith)
                    requires
                        i <= 0xFFFF_FFFF_FFFF_FFFF,
                ;
                assert(entries[i as int] == transaction@);
            }
            current_balance = current_balance - transaction.amount as i128;
            total_expense = total_expense + transaction.amount as u128;
            let mut line = chars_of(transaction.to_string().as_str());
            append_str(&mut line, " Balance ");
            append_chars(&mut line, &write_money(current_balance));
            assert(line@ =~= entry_line(start, entries, i as int));
            output.push(line);
            i += 1;
        }
        proof {
            lemma_spent_bound(entries, i as int);
            assert(i * 0xFFFF_FFFF <= 0xFFFF_FFFF_FFFF_FFFF * 0xFFFF_FFFF) by (nonlinear_arith)
                requires
                    i <= 0xFFFF_FFFF_FFFF_FFFF,
            ;
        }
        let mut total_line = chars_of("Total expense ");
        append_chars(&mut total_line, &write_money(total_expense as i128));
        let mut average_line = chars_of("Average expense ");
        let transaction_count = self.transactions.len() as u128;
        if transaction_count == 0 {
            append_str(&mut average_line, "NaN");
        } else {
            let average = (2 * total_expense + transaction_count) / (2 * transaction_count);
            append_chars(&mut average_line, &write_money(average as i128));
        }
        output.push(total_line);
        output.push(average_line);
        assert(texts(output@) =~= report_lines(start, entries));
        string_of(&join_chars(&output, "\n"))
    }
}

/// Reads a checkbook from text and writes its report.
pub fn process_checkbook_string(input: &str) -> (output: String)
    requires
        checkbook_of(input@) is Some,
    ensures
        output@ == report_of(input@),
{
    match Checkbook::read(input) {
        Some(book) => book.report(),
        None => "".to_owned(),
    }
}

/// Reads a checkbook from text and writes its report, where the text can be
/// read as a checkbook.
pub fn try_process_checkbook_string(input: &str) -> (output: Option<String>)
    ensures
        match output {
            Some(text) => checkbook_of(input@) is Some && text@ == report_of(input@),
            None => checkbook_of(input@).is_none(),
        },
{
    if Checkbook::read(input).is_some() {
        Some(process_checkbook_string(input))
    } else {
        None
    }
}

} // verus!
