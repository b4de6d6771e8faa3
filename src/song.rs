use vstd::prelude::*;
use vstd::string::StringExecFns;

verus! {

/// The character of a decimal digit.
pub open spec fn digit_char(d: nat) -> char {
    if d == 0 {
        '0'
    } else if d == 1 {
        '1'
    } else if d == 2 {
        '2'
    } else if d == 3 {
        '3'
    } else if d == 4 {
        '4'
    } else if d == 5 {
        '5'
    } else if d == 6 {
        '6'
    } else if d == 7 {
        '7'
    } else if d == 8 {
        '8'
    } else {
        '9'
    }
}

/// The decimal digits of `n`, most significant first, with no leading zero.
pub open spec fn decimal(n: nat) -> Seq<char>
    decreases n,
{
    if n < 10 {
        seq![digit_char(n)]
    } else {
        decimal(n / 10).push(digit_char(n % 10))
    }
}

fn digit_text(d: usize) -> (r: &'static str)
    requires
        d < 10,
    ensures
        r@ == seq![digit_char(d as nat)],
{
    proof {
        reveal_strlit("0");
        reveal_strlit("1");
        reveal_strlit("2");
        reveal_strlit("3");
        reveal_strlit("4");
        reveal_strlit("5");
        reveal_strlit("6");
        reveal_strlit("7");
        reveal_strlit("8");
        reveal_strlit("9");
    }
    match d {
        0 => "0",
        1 => "1",
        2 => "2",
        3 => "3",
        4 => "4",
        5 => "5",
        6 => "6",
        7 => "7",
        8 => "8",
        _ => "9",
    }
}

/// `n` written in decimal.
pub fn decimal_text(n: usize) -> (r: String)
    ensures
        r@ == decimal(n as nat),
    decreases n,
{
    if n < 10 {
        String::from_str(digit_text(n))
    } else {
        let mut s = decimal_text(n / 10);
        s.append(digit_text(n % 10));
        s
    }
}

/// The ordinal word of a day of Christmas.
pub open spec fn ordinal_word(n: nat) -> Seq<char> {
    if n == 1 {
        "first"@
    } else if n == 2 {
        "second"@
    } else if n == 3 {
        "third"@
    } else if n == 4 {
        "fourth"@
    } else if n == 5 {
        "fifth"@
    } else if n == 6 {
        "sixth"@
    } else if n == 7 {
        "seventh"@
    } else if n == 8 {
        "eighth"@
    } else if n == 9 {
        "ninth"@
    } else if n == 10 {
        "tenth"@
    } else if n == 11 {
        "eleventh"@
    } else {
        "twelfth"@
    }
}

/// The ordinal of `n`: a word from 1 to 12, otherwise the number followed by "th".
pub open spec fn ordinal_text(n: nat) -> Seq<char> {
    if 1 <= n <= 12 {
        ordinal_word(n)
    } else {
        decimal(n) + "th"@
    }
}

/// The ordinal of `n`: a word from 1 to 12, otherwise the number followed by "th".
pub fn ordinal(n: usize) -> (r: String)
    ensures
        r@ == ordinal_text(n as nat),
{
    let word = match n {
        1 => "first",
        2 => "second",
        3 => "third",
        4 => "fourth",
        5 => "fifth",
        6 => "sixth",
        7 => "seventh",
        8 => "eighth",
        9 => "ninth",
        10 => "tenth",
        11 => "eleventh",
        12 => "twelfth",
        _ => {
            let mut s = decimal_text(n);
            s.append("th");
            return s;
        },
    };
    String::from_str(word)
}

/// The gifts of the song, the first one in lower case for use after "And".
pub open spec fn gift(k: nat) -> Seq<char> {
    if k == 0 {
        "a partridge in a pear tree."@
    } else if k == 1 {
        "Two turtle doves"@
    } else if k == 2 {
        "Three French hens,"@
    } else if k == 3 {
        "Four calling birds,"@
    } else if k == 4 {
        "Five golden rings,"@
    } else if k == 5 {
        "Six geese a-laying,"@
    } else if k == 6 {
        "Seven swans a-swimming,"@
    } else if k == 7 {
        "Eight maids a-milking,"@
    } else if k == 8 {
        "Nine ladies dancing,"@
    } else if k == 9 {
        "Ten lords a-leaping,"@
    } else if k == 10 {
        "Eleven pipers piping,"@
    } else {
        "Twelve drummers drumming,"@
    }
}

fn gift_text(k: usize) -> (r: &'static str)
    requires
        k < 12,
    ensures
        r@ == gift(k as nat),
{
    match k {
        0 => "a partridge in a pear tree.",
        1 => "Two turtle doves",
        2 => "Three French hens,",
        3 => "Four calling birds,",
        4 => "Five golden rings,",
        5 => "Six geese a-laying,",
        6 => "Seven swans a-swimming,",
        7 => "Eight maids a-milking,",
        8 => "Nine ladies dancing,",
        9 => "Ten lords a-leaping,",
        10 => "Eleven pipers piping,",
        _ => "Twelve drummers drumming,",
    }
}

/// The lines of the verse of day `day`: the opening two lines, then the gifts from the
/// day's own down to the second, then "And" with the partridge; on the first day the
/// partridge alone, capitalised.
pub open spec fn verse_lines(day: nat) -> Seq<Seq<char>> {
    let opening = seq!["On the "@ + ordinal_text(day) + " day of Christmas"@, "My true love gave to me"@];
    if day == 1 {
        opening.push("A partridge in a pear tree."@)
    } else {
        opening + Seq::new((day - 1) as nat, |j: int| gift((day - 1 - j) as nat)) + seq!["And "@ + gift(0)]
    }
}

/// The lines of the verse of day `day`, from 1 to 12.
pub fn verse(day: usize) -> (r: Vec<String>)
    requires
        1 <= day <= 12,
    ensures
        r@.map_values(|s: String| s@) == verse_lines(day as nat),
{
    let mut lines: Vec<String> = Vec::new();
    let mut first = String::from_str("On the ");
    first.append(ordinal(day).as_str());
    first.append(" day of Christmas");
    lines.push(first);
    lines.push(String::from_str("My true love gave to me"));
    if day == 1 {
        lines.push(String::from_str("A partridge in a pear tree."));
    } else {
        let mut k: usize = day - 1;
        while k >= 1
            invariant
                0 <= k < day <= 12,
                lines@.len() == 2 + (day - 1 - k),
                lines@[0]@ == "On the "@ + ordinal_text(day as nat) + " day of Christmas"@,
                lines@[1]@ == "My true love gave to me"@,
                forall|j: int| 0 <= j < day - 1 - k ==> #[trigger] lines@[2 + j]@ == gift((day - 1 - j) as nat),
            decreases k,
        {
            lines.push(String::from_str(gift_text(k)));
            k -= 1;
        }
        let mut last = String::from_str("And ");
        last.append(gift_text(0));
        lines.push(last);
    }
    proof {
        let v = verse_lines(day as nat);
        let m = lines@.map_values(|s: String| s@);
        assert(m.len() == v.len());
        assert forall|i: int| 0 <= i < m.len() implies m[i] == v[i] by {
            if day > 1 && 2 <= i < m.len() - 1 {
                assert(lines@[2 + (i - 2)]@ == gift((day - 1 - (i - 2)) as nat));
            }
        }
        assert(m =~= v);
    }
    lines
}

} // verus!
