use katas::checkbook::{
    process_checkbook_string, read_amount, read_balance, transaction_from_groups,
    try_process_checkbook_string, Checkbook, Transaction,
};
use katas::money::{read_hundredths, write_money};
use katas::text::lines;

const EXAMPLE_INPUT: &str = "1000.00
125 Market 125.45
126 Hardware 34.95
127 Video 7.45
128 Book 14.32
129 Gasoline 16.10";

const EXAMPLE_OUTPUT: &str = "Original_Balance: 1000.00
125 Market 125.45 Balance 874.55
126 Hardware 34.95 Balance 839.60
127 Video 7.45 Balance 832.15
128 Book 14.32 Balance 817.83
129 Gasoline 16.10 Balance 801.73
Total expense 198.27
Average expense 39.65";

const CHALLENGE_INPUT: &str = "1233.00
125 Hardware;! 24.8?;
123 Flowers 93.5
127 Meat 120.90
120 Picture 34.00
124 Gasoline 11.00
123 Photos;! 71.4?;
122 Picture 93.5
132 Tires;! 19.00,?;
129 Stamps 13.6
129 Fruits{} 17.6
129 Market;! 128.00?;
121 Gasoline;! 13.6?;";

const CHALLENGE_OUTPUT: &str = "Original_Balance: 1233.00
125 Hardware 24.80 Balance 1208.20
123 Flowers 93.50 Balance 1114.70
127 Meat 120.90 Balance 993.80
120 Picture 34.00 Balance 959.80
124 Gasoline 11.00 Balance 948.80
123 Photos 71.40 Balance 877.40
122 Picture 93.50 Balance 783.90
132 Tires 19.00 Balance 764.90
129 Stamps 13.60 Balance 751.30
129 Fruits 17.60 Balance 733.70
129 Market 128.00 Balance 605.70
121 Gasoline 13.60 Balance 592.10
Total expense 640.90
Average expense 53.41";

#[test]
fn lib_it_works_for_the_example() {
    assert_eq!(EXAMPLE_OUTPUT, process_checkbook_string(EXAMPLE_INPUT));
}

#[test]
fn it_works_for_the_challenge() {
    assert_eq!(CHALLENGE_OUTPUT, process_checkbook_string(CHALLENGE_INPUT));
}

#[test]
fn a_book_that_cannot_be_read_gives_no_report() {
    assert_eq!(try_process_checkbook_string(""), None);
    assert_eq!(try_process_checkbook_string("ten"), None);
    assert_eq!(try_process_checkbook_string("10.00\n\n1 a 1.0"), None);
    assert_eq!(try_process_checkbook_string("10.00\n1 a ."), None);
    assert_eq!(try_process_checkbook_string("10.00\n1 a 5"), None);
    assert_eq!(try_process_checkbook_string("10.00\nno check 1.00"), None);
    assert_eq!(
        try_process_checkbook_string(EXAMPLE_INPUT).as_deref(),
        Some(EXAMPLE_OUTPUT)
    );
    assert_eq!(
        try_process_checkbook_string("10\r\n7 Tea, green! 2.5\r\n").as_deref(),
        Some("Original_Balance: 10.00\n7 Tea green 2.50 Balance 7.50\nTotal expense 2.50\nAverage expense 2.50")
    );
}

#[test]
fn balances_may_fall_below_zero() {
    assert_eq!(
        process_checkbook_string("5.00\n1 rent 7.25\n2 water .5\n3 fee 0.005"),
        "Original_Balance: 5.00\n1 rent 7.25 Balance -2.25\n2 water 0.50 Balance -2.75\n3 fee 0.01 Balance -2.76\nTotal expense 7.76\nAverage expense 2.59"
    );
    assert_eq!(
        process_checkbook_string("-1.50"),
        "Original_Balance: -1.50\nTotal expense 0.00\nAverage expense NaN"
    );
    assert_eq!(
        process_checkbook_string("+3\n9 x 1.\n8 y 2.\n"),
        "Original_Balance: 3.00\n9 x 1.00 Balance 2.00\n8 y 2.00 Balance 0.00\nTotal expense 3.00\nAverage expense 1.50"
    );
    // 0.01 + 0.02 = 0.03, a half of which counts up
    assert_eq!(
        process_checkbook_string("0.00\n1 a 0.01\n2 b 0.02")
            .lines()
            .last(),
        Some("Average expense 0.02")
    );
}

#[test]
fn amounts_are_read_to_the_nearest_hundredth() {
    assert_eq!(read_amount("125.45"), Some(12545));
    assert_eq!(read_amount("24.8"), Some(2480));
    assert_eq!(read_amount("7."), Some(700));
    assert_eq!(read_amount(".07"), Some(7));
    assert_eq!(read_amount("0.004"), Some(0));
    assert_eq!(read_amount("0.005"), Some(1));
    assert_eq!(read_amount("0.0049999"), Some(0));
    assert_eq!(read_amount("1.999"), Some(200));
    assert_eq!(read_amount("007.10"), Some(710));
    assert_eq!(read_amount("42949672.95"), Some(u32::MAX));
    assert_eq!(read_amount("42949672.96"), None);
    assert_eq!(read_amount("42949672.955"), None);
    assert_eq!(read_amount("99999999999999999999999.0"), None);
    assert_eq!(read_amount("7"), None);
    assert_eq!(read_amount("."), None);
    assert_eq!(read_amount(""), None);
    assert_eq!(read_amount("1.2.3"), None);
    assert_eq!(read_amount("-1.0"), None);
    assert_eq!(read_amount("1,5"), None);
    assert_eq!(read_amount("١.٥"), None);
    assert_eq!(read_balance("1000.00"), Some(100_000));
    assert_eq!(read_balance("1000"), Some(100_000));
    assert_eq!(read_balance("-0.5"), Some(-50));
    assert_eq!(read_balance("+.5"), Some(50));
    assert_eq!(read_balance("-42949672.95"), Some(-(u32::MAX as i64)));
    assert_eq!(read_balance("-"), None);
    assert_eq!(read_balance("--1"), None);
    assert_eq!(read_balance(" 1"), None);
    assert_eq!(read_balance("1e3"), None);
    assert_eq!(read_balance(""), None);
    let chars: Vec<char> = "ab12.5".chars().collect();
    assert_eq!(read_hundredths(&chars, 2), Some((1250, true)));
    assert_eq!(read_hundredths(&chars, 5), Some((500, false)));
    assert_eq!(read_hundredths(&chars, 6), None);
    assert_eq!(read_hundredths(&chars, 0), None);
}

#[test]
fn money_is_written_with_two_decimal_places() {
    let text = |value: i128| write_money(value).iter().collect::<String>();
    assert_eq!(text(0), "0.00");
    assert_eq!(text(5), "0.05");
    assert_eq!(text(-5), "-0.05");
    assert_eq!(text(50), "0.50");
    assert_eq!(text(123456), "1234.56");
    assert_eq!(text(-100), "-1.00");
    assert_eq!(text(i128::MAX), "1701411834604692317316873037158841057.27");
    assert_eq!(text(i128::MIN + 1), "-1701411834604692317316873037158841057.27");
}

#[test]
fn checks_are_read_from_the_groups_of_a_match() {
    let group = |text: &str| Some(text.to_string());
    let check =
        transaction_from_groups(&vec![group("1 a b 2.5"), group("1"), group("a b"), group("2.5")])
            .unwrap();
    assert_eq!(check.check_number, "1");
    assert_eq!(check.category, "a b");
    assert_eq!(check.amount, 250);
    assert_eq!(check.to_string(), "1 a b 2.50");
    assert!(transaction_from_groups(&vec![group("x"), group("1"), group("a"), group("2")]).is_none());
    assert!(transaction_from_groups(&vec![group("x"), group("1"), group("a")]).is_none());
    assert!(transaction_from_groups(&vec![group("x"), None, group("a"), group("2.0")]).is_none());
    let read = Transaction::from_line("12 Books & more!! 7.5?").unwrap();
    assert_eq!(read.to_string(), "12 Books  more 7.50");
    // the longest category is taken: the amount is the last numeral with a point
    let greedy = Transaction::from_line("3 a 1.5 b 2.5").unwrap();
    assert_eq!((greedy.category.as_str(), greedy.amount), ("a 1.5 b", 250));
    assert!(Transaction::from_line("").is_none());
    let book = Checkbook::read("1.00\n1 a 0.25\n2 b 0.25").unwrap();
    assert_eq!(book.starting_balance, 100);
    assert_eq!(book.transactions.len(), 2);
    assert!(Checkbook::read("\n1 a 0.25").is_none());
}

#[test]
fn lines_end_with_a_line_feed_or_not_at_all() {
    let chars = |s: &str| s.chars().collect::<Vec<char>>();
    for text in ["", "\n", "a", "a\n", "a\nb", "a\r\nb\r\n", "a\r", "\r\n\r\n", "a\n\nb\n\n", "a\r\r\nb", "\ra"] {
        let expected: Vec<Vec<char>> = text.lines().map(chars).collect();
        assert_eq!(lines(&chars(text)), expected, "{:?}", text);
    }
}
