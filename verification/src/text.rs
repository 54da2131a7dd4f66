//! Names of outputs and recognition of drivers.

use vstd::prelude::*;
use vstd::string::*;

verus! {

/// The character of a decimal digit.
pub open spec fn digit(d: nat) -> char {
    (48 + d) as char
}

/// The decimal digits of a number, without leading zeros.
pub open spec fn decimal(n: nat) -> Seq<char>
    decreases n,
{
    if n < 10 {
        seq![digit(n)]
    } else {
        decimal(n / 10).push(digit(n % 10))
    }
}

fn digit_text(d: u32) -> (text: &'static str)
    requires
        d < 10,
    ensures
        text@ == seq![digit(d as nat)],
{
    proof {
        reveal_strlit("0");
        reveal_strlit("1");
        reveal_strlit("2");
        reveal_strlit("3");
        reveal_strlit("4");
        reveal_strlit("5");
        reveal_strlit("6");
        reveal_strlit("7");
        reveal_strlit("8");
        reveal_strlit("9");
    }
    match d {
        0 => "0",
        1 => "1",
        2 => "2",
        3 => "3",
        4 => "4",
        5 => "5",
        6 => "6",
        7 => "7",
        8 => "8",
        _ => "9",
    }
}

/// Writes a number in decimal digits.
pub fn decimal_text(n: u32) -> (text: String)
    ensures
        text@ == decimal(n as nat),
    decreases n,
{
    if n < 10 {
        digit_text(n).to_owned()
    } else {
        let mut text = decimal_text(n / 10);
        text.append(digit_text(n % 10));
        assert(text@ =~= decimal((n / 10) as nat).push(digit((n % 10) as nat)));
        text
    }
}

/// What `drm::control::connector::Interface::as_str` says of the interface that `From<u32>`
/// makes of a raw connector type.
pub uninterp spec fn interface_text(interface: u32) -> Seq<char>;

/// Calls `drm::control::connector::Interface::as_str` on the interface that `From<u32>` makes of
/// a raw connector type. Claimed: the text depends on the number alone.
#[verifier::external_body]
fn interface_name(interface: u32) -> (name: &'static str)
    ensures
        name@ == interface_text(interface),
{
    drm::control::connector::Interface::from(interface).as_str()
}

/// The name of an output: interface, hyphen, number.
pub open spec fn joined_name(interface: Seq<char>, id: u32) -> Seq<char> {
    interface.push('-') + decimal(id as nat)
}

/// Joins the name of an interface and the number of a connector.
pub fn join_name(interface: &str, id: u32) -> (name: String)
    ensures
        name@ == joined_name(interface@, id),
{
    let mut name = interface.to_owned();
    name.append("-");
    proof {
        reveal_strlit("-");
        assert(name@ =~= interface@.push('-'));
    }
    name.append(decimal_text(id).as_str());
    name
}

/// Names the output of a connector.
pub fn output_name(interface: u32, id: u32) -> (name: String)
    ensures
        name@ == joined_name(interface_text(interface), id),
{
    join_name(interface_name(interface), id)
}

proof fn lemma_decimal_digits(n: nat)
    ensures
        decimal(n).len() > 0,
        forall|i: int| 0 <= i < decimal(n).len() ==> 48 <= (#[trigger] decimal(n)[i]) as nat <= 57,
    decreases n,
{
    if n >= 10 {
        lemma_decimal_digits(n / 10);
    }
}

proof fn lemma_decimal_injective(a: nat, b: nat)
    requires
        decimal(a) == decimal(b),
    ensures
        a == b,
    decreases a,
{
    assert(decimal(a).last() == digit(a % 10));
    assert(decimal(b).last() == digit(b % 10));
    if a >= 10 && b >= 10 {
        assert(decimal(a).drop_last() =~= decimal(a / 10));
        assert(decimal(b).drop_last() =~= decimal(b / 10));
        lemma_decimal_injective(a / 10, b / 10);
    } else if a >= 10 {
        lemma_decimal_digits(a / 10);
        assert(decimal(b).len() == 1);
    } else if b >= 10 {
        lemma_decimal_digits(b / 10);
        assert(decimal(a).len() == 1);
    }
}

/// Two connectors of one interface with different numbers have different output names.
pub proof fn law_output_names_differ(interface: Seq<char>, a: u32, b: u32)
    requires
        a != b,
    ensures
        joined_name(interface, a) != joined_name(interface, b),
{
    if joined_name(interface, a) == joined_name(interface, b) {
        let n = interface.len() as int + 1;
        assert(joined_name(interface, a).skip(n) =~= decimal(a as nat));
        assert(joined_name(interface, b).skip(n) =~= decimal(b as nat));
        lemma_decimal_injective(a as nat, b as nat);
    }
}

/// What `str::to_lowercase` makes of a text.
pub uninterp spec fn lowercase(text: Seq<char>) -> Seq<char>;

/// All characters are ASCII.
pub open spec fn all_ascii(text: Seq<char>) -> bool {
    forall|i: int| 0 <= i < text.len() ==> (#[trigger] text[i]) as nat <= 127
}

/// The lower case of an ASCII character.
pub open spec fn ascii_lower(c: char) -> char {
    if 65 <= c as nat <= 90 {
        (c as nat + 32) as char
    } else {
        c
    }
}

/// Calls `str::to_lowercase`. Claimed: the result depends on the text alone, and of an ASCII text
/// it is the text with each capital letter replaced by its small one. Left unsaid: what becomes
/// of other characters.
#[verifier::external_body]
fn to_lowercase(text: &str) -> (lower: String)
    ensures
        lower@ == lowercase(text@),
        all_ascii(text@) ==> lower@ == text@.map_values(|c: char| ascii_lower(c)),
{
    text.to_lowercase()
}

/// `part` stands in `text` at position `at`.
pub open spec fn stands_at(text: Seq<char>, part: Seq<char>, at: int) -> bool {
    0 <= at && at + part.len() <= text.len() && text.subrange(at, at + part.len()) == part
}

/// `part` stands somewhere in `text`.
pub open spec fn contains_text(text: Seq<char>, part: Seq<char>) -> bool {
    exists|at: int| stands_at(text, part, at)
}

/// Whether `part` stands somewhere in `text`.
pub fn contains(text: &str, part: &str) -> (found: bool)
    ensures
        found == contains_text(text@, part@),
{
    let len: usize = text.unicode_len();
    let part_len: usize = part.unicode_len();
    if part_len > len {
        return false;
    }
    let last: usize = len - part_len;
    let mut at: usize = 0;
    loop
        invariant
            len == text@.len(),
            part_len == part@.len(),
            part_len <= len,
            last == len - part_len,
            at <= last,
            forall|a: int| 0 <= a < at ==> !stands_at(text@, part@, a),
        decreases last - at,
    {
        let mut i: usize = 0;
        while i < part_len && text.get_char(at + i) == part.get_char(i)
            invariant
                len == text@.len(),
                part_len == part@.len(),
                at + part_len <= len,
                i <= part_len,
                forall|j: int| 0 <= j < i ==> text@[at + j] == part@[j],
            decreases part_len - i,
        {
            i = i + 1;
        }
        if i == part_len {
            assert(text@.subrange(at as int, at + part_len) =~= part@);
            assert(stands_at(text@, part@, at as int));
            return true;
        }
        assert(!stands_at(text@, part@, at as int)) by {
            assert(text@[at + i] != part@[i as int]);
            if stands_at(text@, part@, at as int) {
                assert(text@.subrange(at as int, at + part_len)[i as int] == text@[at + i]);
            }
        }
        if at == last {
            assert(forall|a: int| 0 <= a <= last ==> !stands_at(text@, part@, a));
            return false;
        }
        at = at + 1;
    }
}

/// The vendor whose driver cannot use overlay planes.
pub open spec fn vendor() -> Seq<char> {
    "nvidia"@
}

/// Whether a text in lower case names the vendor whose driver cannot use overlay planes.
pub fn names_vendor(lower: &str) -> (found: bool)
    ensures
        found == contains_text(lower@, vendor()),
{
    contains(lower, "nvidia")
}

/// The driver's name or description, in lower case, names the vendor.
pub open spec fn vendor_driver(name: Seq<char>, description: Seq<char>) -> bool {
    contains_text(lowercase(name), vendor()) || contains_text(lowercase(description), vendor())
}

/// An ASCII text names the vendor, in whatever mix of small and capital letters.
pub open spec fn spells_vendor(text: Seq<char>) -> bool {
    all_ascii(text) && contains_text(text.map_values(|c: char| ascii_lower(c)), vendor())
}

/// Whether a driver is of the vendor whose driver cannot use overlay planes.
pub fn is_vendor_driver(name: &str, description: &str) -> (yes: bool)
    ensures
        yes == vendor_driver(name@, description@),
        spells_vendor(name@) || spells_vendor(description@) ==> yes,
{
    let lower_name = to_lowercase(name);
    let lower_description = to_lowercase(description);
    names_vendor(lower_name.as_str()) || names_vendor(lower_description.as_str())
}

/// The number that a text of decimal digits stands for; the digits begin at the character 48.
pub open spec fn number_read(text: Seq<char>) -> int
    decreases text.len(),
{
    if text.len() == 0 {
        0
    } else {
        10 * number_read(text.drop_last()) + (text.last() as nat - 48)
    }
}

proof fn lemma_decimal_reads_back(n: nat)
    ensures
        number_read(decimal(n)) == n,
        decimal(n)[0] == '0' ==> decimal(n).len() == 1,
    decreases n,
{
    reveal_with_fuel(number_read, 2);
    lemma_decimal_digits(n);
    if n >= 10 {
        let rest = decimal(n / 10);
        lemma_decimal_digits(n / 10);
        lemma_decimal_reads_back(n / 10);
        assert(decimal(n).drop_last() =~= rest);
        assert(decimal(n)[0] == rest[0]);
        if rest[0] == '0' {
            assert(rest.len() == 1);
            assert(rest.drop_last() =~= Seq::<char>::empty());
            assert(number_read(rest) == 0);
        }
    } else {
        assert(decimal(n).drop_last() =~= Seq::<char>::empty());
    }
}

/// What is written for a number are decimal digits that read back as the number, without a
/// leading zero.
pub proof fn law_decimal_text(n: u32, text: String)
    requires
        call_ensures(decimal_text, (n,), text),
    ensures
        text@.len() > 0,
        forall|i: int| 0 <= i < text@.len() ==> 48 <= (#[trigger] text@[i]) as nat <= 57,
        text@[0] == '0' ==> text@.len() == 1,
        number_read(text@) == n,
{
    lemma_decimal_digits(n as nat);
    lemma_decimal_reads_back(n as nat);
}

/// A joined name is the interface, one hyphen, and the number as it is written.
pub proof fn law_join_name(interface: &str, id: u32, digits: String, name: String)
    requires
        call_ensures(decimal_text, (id,), digits),
        call_ensures(join_name, (interface, id), name),
    ensures
        name@ == interface@ + seq!['-'] + digits@,
{
    assert(name@ =~= interface@ + seq!['-'] + digits@);
}

/// The name of an output is what the interface is called, one hyphen, and the number as it is
/// written.
pub proof fn law_output_name(interface: u32, id: u32, digits: String, name: String)
    requires
        call_ensures(decimal_text, (id,), digits),
        call_ensures(output_name, (interface, id), name),
    ensures
        name@ == interface_text(interface) + seq!['-'] + digits@,
{
    assert(name@ =~= interface_text(interface) + seq!['-'] + digits@);
}

proof fn lemma_contains_text(text: Seq<char>, part: Seq<char>)
    ensures
        contains_text(text, part) <==> exists|a: Seq<char>, b: Seq<char>|
            text == #[trigger] (a + part + b),
{
    if contains_text(text, part) {
        let at = choose|at: int| stands_at(text, part, at);
        let a = text.take(at);
        let b = text.skip(at + part.len());
        assert(text =~= a + part + b) by {
            assert forall|i: int| 0 <= i < text.len() implies text[i] == (a + part + b)[i] by {
                if at <= i < at + part.len() {
                    assert(text.subrange(at, at + part.len())[i - at] == text[i]);
                }
            }
        }
    }
    if exists|a: Seq<char>, b: Seq<char>| text == #[trigger] (a + part + b) {
        let (a, b) = choose|a: Seq<char>, b: Seq<char>| text == #[trigger] (a + part + b);
        assert(text.subrange(a.len() as int, (a.len() + part.len()) as int) =~= part);
        assert(stands_at(text, part, a.len() as int));
    }
}

/// A text contains a part where it is something before, the part, and something behind.
pub proof fn law_contains(text: &str, part: &str, found: bool)
    requires
        call_ensures(contains, (text, part), found),
    ensures
        found <==> exists|a: Seq<char>, b: Seq<char>| text@ == #[trigger] (a + part@ + b),
{
    lemma_contains_text(text@, part@);
}

proof fn lemma_vendor()
    ensures
        vendor() == seq!['n', 'v', 'i', 'd', 'i', 'a'],
{
    reveal_strlit("nvidia");
    assert(vendor() =~= seq!['n', 'v', 'i', 'd', 'i', 'a']);
}

proof fn lemma_spelled(text: Seq<char>)
    ensures
        contains_text(text, vendor()) <==> exists|at: int|
            0 <= at && at + 6 <= text.len() && (#[trigger] text[at]) == 'n' && text[at + 1] == 'v'
                && text[at + 2] == 'i' && text[at + 3] == 'd' && text[at + 4] == 'i' && text[at
                + 5] == 'a',
{
    lemma_vendor();
    if contains_text(text, vendor()) {
        let at = choose|at: int| stands_at(text, vendor(), at);
        let part = text.subrange(at, at + 6);
        assert(part == vendor());
        assert(text[at] == part[0] && text[at + 1] == part[1] && text[at + 2] == part[2] && text[at
            + 3] == part[3] && text[at + 4] == part[4] && text[at + 5] == part[5]);
    }
    if exists|at: int|
        0 <= at && at + 6 <= text.len() && (#[trigger] text[at]) == 'n' && text[at + 1] == 'v'
            && text[at + 2] == 'i' && text[at + 3] == 'd' && text[at + 4] == 'i' && text[at
            + 5] == 'a' {
        let at = choose|at: int|
            0 <= at && at + 6 <= text.len() && (#[trigger] text[at]) == 'n' && text[at + 1] == 'v'
                && text[at + 2] == 'i' && text[at + 3] == 'd' && text[at + 4] == 'i' && text[at
                + 5] == 'a';
        assert(text.subrange(at, at + 6) =~= vendor());
        assert(stands_at(text, vendor(), at));
    }
}

/// The vendor is named where the six letters stand one behind the other.
pub proof fn law_names_vendor(lower: &str, found: bool)
    requires
        call_ensures(names_vendor, (lower,), found),
    ensures
        found <==> exists|at: int|
            0 <= at && at + 6 <= lower@.len() && (#[trigger] lower@[at]) == 'n' && lower@[at + 1]
                == 'v' && lower@[at + 2] == 'i' && lower@[at + 3] == 'd' && lower@[at + 4] == 'i'
                && lower@[at + 5] == 'a',
{
    lemma_spelled(lower@);
}

/// A driver is the vendor's where the six letters stand one behind the other in its name in lower
/// case or in its description in lower case.
pub proof fn law_vendor_driver(name: &str, description: &str, yes: bool)
    requires
        call_ensures(is_vendor_driver, (name, description), yes),
    ensures
        ({
            let n = lowercase(name@);
            let d = lowercase(description@);
            yes <==> (exists|at: int|
                0 <= at && at + 6 <= n.len() && (#[trigger] n[at]) == 'n' && n[at + 1] == 'v'
                    && n[at + 2] == 'i' && n[at + 3] == 'd' && n[at + 4] == 'i' && n[at + 5]
                    == 'a') || (exists|at: int|
                0 <= at && at + 6 <= d.len() && (#[trigger] d[at]) == 'n' && d[at + 1] == 'v'
                    && d[at + 2] == 'i' && d[at + 3] == 'd' && d[at + 4] == 'i' && d[at + 5]
                    == 'a')
        }),
{
    lemma_spelled(lowercase(name@));
    lemma_spelled(lowercase(description@));
}

/// An ASCII name or description that spells the vendor anywhere, in whatever mix of small and
/// capital letters, makes the driver the vendor's.
pub proof fn law_vendor_in_any_case(
    name: &str,
    description: &str,
    yes: bool,
    text: Seq<char>,
    at: int,
)
    requires
        call_ensures(is_vendor_driver, (name, description), yes),
        text == name@ || text == description@,
        forall|i: int| 0 <= i < text.len() ==> (#[trigger] text[i]) as nat <= 127,
        0 <= at,
        at + 6 <= text.len(),
        text[at] == 'n' || text[at] == 'N',
        text[at + 1] == 'v' || text[at + 1] == 'V',
        text[at + 2] == 'i' || text[at + 2] == 'I',
        text[at + 3] == 'd' || text[at + 3] == 'D',
        text[at + 4] == 'i' || text[at + 4] == 'I',
        text[at + 5] == 'a' || text[at + 5] == 'A',
    ensures
        yes,
{
    lemma_vendor();
    let lower = text.map_values(|c: char| ascii_lower(c));
    assert(lower.subrange(at, at + 6) =~= vendor());
    assert(stands_at(lower, vendor(), at));
    assert(spells_vendor(text));
}

} // verus!
