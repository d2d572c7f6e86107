//! Dated nightly toolchains, and the names of toolchains.
//!
//! A date is kept as the number of its day in the proleptic Gregorian
//! calendar, in which the first of January of the year 1 is day 1. Dates are
//! written and read as `YYYY-MM-DD`.

use crate::components::is_digit;
use crate::text::{chars_of, same_text};
use chrono::{Datelike, NaiveDate};
use vstd::prelude::*;
use vstd::string::*;

verus! {

/// The text of the date with the given day number, where the calendar in use
/// reaches that far.
pub uninterp spec fn date_text(days: int) -> Option<Seq<char>>;

/// The day number of the date that a text stands for, where it stands for
/// one.
pub uninterp spec fn date_parsed(text: Seq<char>) -> Option<int>;

/// Calls `NaiveDate::to_string`, chrono's `Display`, on the date that
/// `NaiveDate::from_num_days_from_ce_opt` makes of the day number. The text is
/// given the name [`date_text`]; there is none where chrono has no date of
/// that number. What chrono writes for a date it reads as the same date.
#[verifier::external_body]
fn format_date(days: i32) -> (text: Option<String>)
    ensures
        text.deep_view() == date_text(days as int),
        text is Some ==> date_parsed(text->0@) == Some(days as int),
{
    NaiveDate::from_num_days_from_ce_opt(days).map(|date| date.to_string())
}

/// Calls `str::parse::<NaiveDate>`, chrono's `FromStr`, and takes the day
/// number of the date with `Datelike::num_days_from_ce`. The number is given
/// the name [`date_parsed`]; there is none where chrono does not accept the
/// text. A date that chrono has read is one that it can write, and what it
/// then writes it reads as the same date.
#[verifier::external_body]
fn parse_date(text: &str) -> (days: Option<i32>)
    ensures
        match days {
            Some(n) => {
                &&& date_parsed(text@) == Some(n as int)
                &&& date_text(n as int) is Some
                &&& date_parsed(date_text(n as int)->0) == Some(n as int)
            },
            None => date_parsed(text@) is None,
        },
{
    text.parse::<NaiveDate>().ok().map(|date| date.num_days_from_ce())
}

/// The channel of the toolchains that are built every night.
pub const NIGHTLY: &'static str = "nightly";

/// The channel of the nightly toolchains.
pub open spec fn nightly_channel() -> Seq<char> {
    NIGHTLY@
}

/// Whether `text` is the number of a release: three numbers with dots
/// between, each of one digit, but the middle one of one or two.
pub open spec fn is_version(text: Seq<char>) -> bool {
    ||| (text.len() == 5 && is_digit(text[0]) && text[1] == '.' && is_digit(text[2]) && text[3]
        == '.' && is_digit(text[4]))
    ||| (text.len() == 6 && is_digit(text[0]) && text[1] == '.' && is_digit(text[2]) && is_digit(
        text[3],
    ) && text[4] == '.' && is_digit(text[5]))
}

/// Whether `text` names a channel: `nightly`, `beta`, `stable`, or the number
/// of a release.
pub open spec fn is_channel(text: Seq<char>) -> bool {
    text == "nightly"@ || text == "beta"@ || text == "stable"@ || is_version(text)
}

/// Whether `text` has the shape of a date: four digits, two digits and two
/// digits, with hyphens between.
pub open spec fn is_date_shaped(text: Seq<char>) -> bool {
    &&& text.len() == 10
    &&& is_digit(text[0]) && is_digit(text[1]) && is_digit(text[2]) && is_digit(text[3])
    &&& text[4] == '-'
    &&& is_digit(text[5]) && is_digit(text[6])
    &&& text[7] == '-'
    &&& is_digit(text[8]) && is_digit(text[9])
}

/// What the name of a toolchain says: the channel, and the date where the
/// name has one.
#[derive(Debug)]
pub struct ToolchainDesc {
    pub channel: String,
    pub date: Option<String>,
}

/// The mathematical value of a [`ToolchainDesc`].
pub struct ToolchainDescView {
    pub channel: Seq<char>,
    pub date: Option<Seq<char>>,
}

impl View for ToolchainDesc {
    type V = ToolchainDescView;

    open spec fn view(&self) -> ToolchainDescView {
        ToolchainDescView { channel: self.channel@, date: self.date.deep_view() }
    }
}

impl DeepView for ToolchainDesc {
    type V = ToolchainDescView;

    open spec fn deep_view(&self) -> ToolchainDescView {
        self@
    }
}

/// What a name says of a toolchain. A name is a channel, or a channel, a
/// hyphen and something of the shape of a date.
pub open spec fn described(name: Seq<char>) -> Option<ToolchainDescView> {
    let n = name.len() as int;
    if is_channel(name) {
        Some(ToolchainDescView { channel: name, date: None })
    } else if n > 11 && name[n - 11] == '-' && is_date_shaped(name.skip(n - 10)) && is_channel(
        name.take(n - 11),
    ) {
        Some(ToolchainDescView { channel: name.take(n - 11), date: Some(name.skip(n - 10)) })
    } else {
        None
    }
}

fn is_digit_char(c: char) -> (digit: bool)
    ensures
        digit == is_digit(c),
{
    c >= '0' && c <= '9'
}

fn version_chars(chars: &Vec<char>, end: usize) -> (version: bool)
    requires
        end <= chars.len(),
    ensures
        version == is_version(chars@.take(end as int)),
{
    let ghost text = chars@.take(end as int);
    if end == 5 {
        assert(text[0] == chars[0] && text[1] == chars[1] && text[2] == chars[2] && text[3]
            == chars[3] && text[4] == chars[4]);
        is_digit_char(chars[0]) && chars[1] == '.' && is_digit_char(chars[2]) && chars[3] == '.'
            && is_digit_char(chars[4])
    } else if end == 6 {
        assert(text[0] == chars[0] && text[1] == chars[1] && text[2] == chars[2] && text[3]
            == chars[3] && text[4] == chars[4] && text[5] == chars[5]);
        is_digit_char(chars[0]) && chars[1] == '.' && is_digit_char(chars[2]) && is_digit_char(
            chars[3],
        ) && chars[4] == '.' && is_digit_char(chars[5])
    } else {
        false
    }
}

fn channel_chars(name: &str, chars: &Vec<char>, end: usize) -> (channel: bool)
    requires
        chars@ == name@,
        end <= chars.len(),
    ensures
        channel == is_channel(name@.take(end as int)),
{
    let head = name.substring_char(0, end);
    assert(head@ =~= name@.take(end as int));
    same_text(head, "nightly") || same_text(head, "beta") || same_text(head, "stable")
        || version_chars(chars, end)
}

fn date_shaped_chars(chars: &Vec<char>, from: usize) -> (shaped: bool)
    requires
        from + 10 == chars.len(),
    ensures
        shaped == is_date_shaped(chars@.skip(from as int)),
{
    let ghost text = chars@.skip(from as int);
    assert(forall|i: int| 0 <= i < 10 ==> text[i] == chars[from + i]);
    is_digit_char(chars[from]) && is_digit_char(chars[from + 1]) && is_digit_char(chars[from + 2])
        && is_digit_char(chars[from + 3]) && chars[from + 4] == '-' && is_digit_char(
        chars[from + 5],
    ) && is_digit_char(chars[from + 6]) && chars[from + 7] == '-' && is_digit_char(chars[from + 8])
        && is_digit_char(chars[from + 9])
}

impl ToolchainDesc {
    /// What `name` says of a toolchain, or `None` where it is not the name of
    /// one: see [`described`].
    pub fn from_str(name: &str) -> (desc: Option<ToolchainDesc>)
        ensures
            desc.deep_view() == described(name@),
    {
        let chars = chars_of(name);
        let n = chars.len();
        assert(name@.take(n as int) =~= name@);
        if channel_chars(name, &chars, n) {
            Some(ToolchainDesc { channel: name.to_owned(), date: None })
        } else if n > 11 && chars[n - 11] == '-' && date_shaped_chars(&chars, n - 10)
            && channel_chars(name, &chars, n - 11) {
            let channel = name.substring_char(0, n - 11).to_owned();
            let date = name.substring_char(n - 10, n).to_owned();
            assert(channel@ =~= name@.take(n - 11));
            assert(date@ =~= name@.skip(n - 10));
            Some(ToolchainDesc { channel, date: Some(date) })
        } else {
            None
        }
    }
}

/// Why a name is not that of a dated nightly.
#[derive(Debug, Clone, Copy, PartialEq, Eq, Structural)]
pub enum NightlyError {
    /// The name is not the name of a toolchain.
    InvalidToolchainName,
    /// The toolchain is not of the nightly channel, or has no date.
    NotADatedNightly,
    /// What stands for the date is no date.
    InvalidDate,
    /// The bad nightly is older than the good one.
    BadBeforeGood,
}

impl NightlyError {
    /// The words for the error.
    pub fn message(&self) -> (words: String)
        ensures
            words@ == match *self {
                NightlyError::InvalidToolchainName => "invalid toolchain name"@,
                NightlyError::NotADatedNightly => "not a dated nightly"@,
                NightlyError::InvalidDate => "invalid date"@,
                NightlyError::BadBeforeGood => "`bad` must be after `good`"@,
            },
    {
        match self {
            NightlyError::InvalidToolchainName => "invalid toolchain name".to_owned(),
            NightlyError::NotADatedNightly => "not a dated nightly".to_owned(),
            NightlyError::InvalidDate => "invalid date".to_owned(),
            NightlyError::BadBeforeGood => "`bad` must be after `good`".to_owned(),
        }
    }
}

/// The nightly toolchain of one day.
#[derive(Debug, Clone, Copy)]
pub struct Nightly {
    date: i32,
}

impl View for Nightly {
    type V = int;

    closed spec fn view(&self) -> int {
        self.date as int
    }
}

impl DeepView for Nightly {
    type V = int;

    open spec fn deep_view(&self) -> int {
        self@
    }
}

/// The nightly that a name stands for: the name must be that of a toolchain
/// of the nightly channel with a date, and the date must be one.
pub open spec fn nightly_named(name: Seq<char>) -> Result<int, NightlyError> {
    match described(name) {
        None => Err(NightlyError::InvalidToolchainName),
        Some(desc) => if desc.channel != nightly_channel() || desc.date is None {
            Err(NightlyError::NotADatedNightly)
        } else {
            match date_parsed(desc.date->0) {
                None => Err(NightlyError::InvalidDate),
                Some(days) => Ok(days),
            }
        },
    }
}

/// The value of what reading a name comes to.
pub open spec fn named(res: Result<Nightly, NightlyError>) -> Result<int, NightlyError> {
    match res {
        Ok(nightly) => Ok(nightly@),
        Err(e) => Err(e),
    }
}

/// Whether `name` may be given as the version to bisect from or to: `Ok` for
/// the name of a nightly with a date, else the words that say what is wrong.
pub open spec fn version_validated(name: Seq<char>) -> Result<(), Seq<char>> {
    match described(name) {
        Some(desc) => if desc.channel == nightly_channel() && desc.date is Some {
            Ok(())
        } else {
            Err("can only bisect on dated nightlies"@)
        },
        None => Err("invalid version: "@ + name),
    }
}

/// Whether `name` may be given as the version to bisect from or to: see
/// [`version_validated`].
pub fn validate_version(name: &str) -> (res: Result<(), String>)
    ensures
        match res {
            Ok(()) => version_validated(name@) == Ok::<(), Seq<char>>(()),
            Err(words) => version_validated(name@) == Err::<(), Seq<char>>(words@),
        },
{
    match ToolchainDesc::from_str(name) {
        Some(desc) => {
            if same_text(desc.channel.as_str(), NIGHTLY) && desc.date.is_some() {
                Ok(())
            } else {
                Err("can only bisect on dated nightlies".to_owned())
            }
        },
        None => {
            let mut words = "invalid version: ".to_owned();
            words.append(name);
            Err(words)
        },
    }
}

/// The name of the nightly of the date that is written `date`: the channel,
/// a hyphen, the date.
pub fn nightly_name(date: &str) -> (name: String)
    ensures
        name@ == nightly_channel() + seq!['-'] + date@,
{
    proof {
        reveal_strlit("-");
        assert("-"@ =~= seq!['-']);
    }
    let mut name = NIGHTLY.to_owned();
    name.append("-");
    name.append(date);
    name
}

impl Nightly {
    #[verifier::type_invariant]
    spec fn dated(self) -> bool {
        &&& date_text(self.date as int) is Some
        &&& date_parsed(date_text(self.date as int)->0) == Some(self.date as int)
    }

    /// The nightly that `name` stands for: see [`nightly_named`].
    pub fn from_str(name: &str) -> (res: Result<Nightly, NightlyError>)
        ensures
            named(res) == nightly_named(name@),
    {
        let desc = match ToolchainDesc::from_str(name) {
            Some(desc) => desc,
            None => {
                return Err(NightlyError::InvalidToolchainName);
            },
        };
        if !same_text(desc.channel.as_str(), NIGHTLY) {
            return Err(NightlyError::NotADatedNightly);
        }
        let date = match &desc.date {
            Some(date) => date,
            None => {
                return Err(NightlyError::NotADatedNightly);
            },
        };
        match parse_date(date.as_str()) {
            Some(days) => Ok(Nightly { date: days }),
            None => Err(NightlyError::InvalidDate),
        }
    }

    /// The number of the nightly's day.
    pub fn day_number(&self) -> (days: i32)
        ensures
            days == self@,
    {
        self.date
    }

    /// The date of the nightly, as `YYYY-MM-DD`. It is read back as the date
    /// of this nightly.
    pub fn date(&self) -> (text: String)
        ensures
            date_text(self@) == Some(text@),
            date_parsed(text@) == Some(self@),
    {
        proof {
            use_type_invariant(self);
        }
        match format_date(self.date) {
            Some(text) => text,
            None => String::new(),
        }
    }

    /// What the name of this nightly says.
    pub fn to_toolchain_desc(&self) -> (desc: ToolchainDesc)
        ensures
            desc@.channel == nightly_channel(),
            desc@.date == date_text(self@),
    {
        ToolchainDesc { date: Some(self.date()), channel: NIGHTLY.to_owned() }
    }

    /// The name of this nightly: the channel, a hyphen, the date. Where the
    /// date has the shape of one (as it has in the years 0 to 9999), the name
    /// is read back as this nightly.
    pub fn to_string(&self) -> (name: String)
        ensures
            date_text(self@) is Some,
            name@ == nightly_channel() + seq!['-'] + date_text(self@)->0,
            is_date_shaped(date_text(self@)->0) ==> nightly_named(name@) == Ok::<
                int,
                NightlyError,
            >(self@),
    {
        proof {
            use_type_invariant(self);
            if is_date_shaped(date_text(self@)->0) {
                dated_name_is_read_back(date_text(self@)->0);
            }
        }
        nightly_name(self.date().as_str())
    }

    /// Whether this nightly is older than `other`.
    pub fn is_before(&self, other: &Nightly) -> (before: bool)
        ensures
            before == (self@ < other@),
    {
        self.date < other.date
    }
}

/// The name of a nightly says what it was made of: the channel of the
/// nightlies, and the date.
pub proof fn dated_name_is_read_back(date: Seq<char>)
    requires
        is_date_shaped(date),
    ensures
        described(nightly_channel() + seq!['-'] + date) == Some(
            ToolchainDescView { channel: nightly_channel(), date: Some(date) },
        ),
{
    reveal_strlit("nightly");
    reveal_strlit("beta");
    reveal_strlit("stable");
    let name = nightly_channel() + seq!['-'] + date;
    assert(name.len() == 18);
    assert(name[7] == '-');
    assert(name.skip(8) =~= date);
    assert(name.take(7) =~= nightly_channel());
    assert(!is_channel(name));
}

/// The nightlies of `all` for which the answer at the same place of `found`
/// is yes, in their order.
pub open spec fn kept_where(all: Seq<int>, found: Seq<bool>) -> Seq<int>
    decreases all.len(),
{
    if all.len() == 0 || found.len() != all.len() {
        Seq::empty()
    } else if found.last() {
        kept_where(all.drop_last(), found.drop_last()).push(all.last())
    } else {
        kept_where(all.drop_last(), found.drop_last())
    }
}

/// The nightlies that are there: those of `all` for which the answer at the
/// same place of `found` is yes, in their order.
pub fn available(all: Vec<Nightly>, found: &Vec<bool>) -> (kept: Vec<Nightly>)
    requires
        found.len() == all.len(),
    ensures
        kept.deep_view() == kept_where(all.deep_view(), found@),
{
    let mut kept: Vec<Nightly> = Vec::new();
    let mut i: usize = 0;
    assert(kept.deep_view() =~= Seq::<int>::empty());
    assert(all.deep_view().take(0) =~= Seq::<int>::empty());
    while i < all.len()
        invariant
            i <= all.len(),
            found.len() == all.len(),
            kept.deep_view() == kept_where(all.deep_view().take(i as int), found@.take(i as int)),
        decreases all.len() - i,
    {
        let ghost before = kept.deep_view();
        proof {
            let upto = all.deep_view().take(i + 1);
            let answers = found@.take(i + 1);
            assert(upto.drop_last() =~= all.deep_view().take(i as int));
            assert(answers.drop_last() =~= found@.take(i as int));
            assert(upto.last() == all[i as int]@);
            assert(answers.last() == found[i as int]);
        }
        if found[i] {
            kept.push(all[i]);
            assert(kept.deep_view() =~= before.push(all[i as int]@));
        }
        i += 1;
    }
    assert(all.deep_view().take(all.len() as int) =~= all.deep_view());
    assert(found@.take(all.len() as int) =~= found@);
    kept
}

/// Whether `good` and `bad` can be the ends of a bisection: `bad` must not be
/// older than `good`.
pub fn check_range(good: &Nightly, bad: &Nightly) -> (res: Result<(), NightlyError>)
    ensures
        res == if bad@ < good@ {
            Err::<(), NightlyError>(NightlyError::BadBeforeGood)
        } else {
            Ok::<(), NightlyError>(())
        },
{
    if bad.is_before(good) {
        Err(NightlyError::BadBeforeGood)
    } else {
        Ok(())
    }
}

/// The nightlies from `from` up to, but without, `to`, one for each day that
/// the calendar has, the oldest first.
pub fn nightlies_between(from: &Nightly, to: &Nightly) -> (all: Vec<Nightly>)
    requires
        from@ < to@,
    ensures
        forall|i: int| 0 <= i < all.len() ==> from@ <= (#[trigger] all[i])@ < to@,
        forall|i: int, j: int| 0 <= i < j < all.len() ==> all[i]@ < all[j]@,
        forall|day: int|
            from@ <= day < to@ && date_text(day) is Some ==> exists|i: int|
                0 <= i < all.len() && (#[trigger] all[i])@ == day,
{
    let mut all: Vec<Nightly> = Vec::new();
    let mut day: i32 = from.date;
    while day < to.date
        invariant
            from@ <= day <= to@,
            forall|i: int| 0 <= i < all.len() ==> from@ <= (#[trigger] all[i])@ < day,
            forall|i: int, j: int| 0 <= i < j < all.len() ==> all[i]@ < all[j]@,
            forall|d: int|
                from@ <= d < day && date_text(d) is Some ==> exists|i: int|
                    0 <= i < all.len() && (#[trigger] all[i])@ == d,
        decreases to@ - day,
    {
        let ghost before = all@;
        if format_date(day).is_some() {
            all.push(Nightly { date: day });
            assert forall|d: int| from@ <= d < day + 1 && date_text(d) is Some implies exists|
                i: int,
            |
                0 <= i < all.len() && (#[trigger] all[i])@ == d by {
                if d < day {
                    let i = choose|i: int| 0 <= i < before.len() && (#[trigger] before[i])@ == d;
                    assert(all[i]@ == d);
                } else {
                    assert(all[all.len() - 1]@ == d);
                }
            }
        }
        day = day + 1;
    }
    all
}

} // verus!
