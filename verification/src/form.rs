use vstd::prelude::*;
use vstd::utf8::encode_utf8;

use crate::text::{decimal, decimal_string, digits_value, join, lemma_decimal_denotes};

verus! {

/// The error of `serde_urlencoded` when a value cannot be written as a form.
#[verifier::external_type_specification]
#[verifier::external_body]
pub struct ExFormError(serde_urlencoded::ser::Error);

/// The hexadecimal digit `d` (below 16), in upper case.
pub open spec fn hex_digit(d: nat) -> char {
    if d < 10 {
        (48 + d) as char
    } else {
        (55 + d) as char
    }
}

/// The bytes that `application/x-www-form-urlencoded` writes as they are.
pub open spec fn form_unchanged(b: u8) -> bool {
    ||| b == 42
    ||| b == 45
    ||| b == 46
    ||| 48 <= b <= 57
    ||| 65 <= b <= 90
    ||| b == 95
    ||| 97 <= b <= 122
}

/// How `application/x-www-form-urlencoded` writes one byte: as it is, a space as `+`, any
/// other byte as `%` and two upper-case hexadecimal digits.
pub open spec fn form_byte(b: u8) -> Seq<char> {
    if form_unchanged(b) {
        seq![b as char]
    } else if b == 32 {
        seq!['+']
    } else {
        seq!['%', hex_digit((b / 16) as nat), hex_digit((b % 16) as nat)]
    }
}

/// How `application/x-www-form-urlencoded` writes a sequence of bytes.
pub open spec fn form_bytes(bytes: Seq<u8>) -> Seq<char>
    decreases bytes.len(),
{
    if bytes.len() == 0 {
        Seq::empty()
    } else {
        form_bytes(bytes.drop_last()) + form_byte(bytes.last())
    }
}

/// How `application/x-www-form-urlencoded` writes a name or a value: its UTF-8 bytes, each
/// written by `form_byte`.
pub open spec fn form_component(s: Seq<char>) -> Seq<char> {
    form_bytes(encode_utf8(s))
}

/// One `name=value` pair of a form.
pub open spec fn form_pair(pair: (Seq<char>, Seq<char>)) -> Seq<char> {
    form_component(pair.0) + seq!['='] + form_component(pair.1)
}

/// A form: its pairs, in order, joined by `&`.
pub open spec fn form_encoded(pairs: Seq<(Seq<char>, Seq<char>)>) -> Seq<char> {
    join(pairs.map_values(|p: (Seq<char>, Seq<char>)| form_pair(p)), seq!['&'])
}

/// The views of a list of pairs of strings.
pub open spec fn pair_views(pairs: Seq<(String, String)>) -> Seq<(Seq<char>, Seq<char>)> {
    pairs.map_values(|p: (String, String)| (p.0@, p.1@))
}

/// Calls `serde_urlencoded::to_string` on a list of name/value pairs of strings. Claims that
/// it succeeds, which its source shows for pairs of strings, and that it writes the pairs as
/// `form_encoded` states (`form_urlencoded::Serializer::append_pair` and `byte_serialize`).
#[verifier::external_body]
pub(crate) fn form_urlencode(pairs: &Vec<(String, String)>) -> (r: Result<
    String,
    serde_urlencoded::ser::Error,
>)
    ensures
        r is Ok,
        r matches Ok(s) ==> s@ == form_encoded(pair_views(pairs@)),
{
    serde_urlencoded::to_string(pairs)
}

/// Offers that are permanent or not: the search asks for all.
#[allow(non_camel_case_types)]
#[derive(Debug, Clone, Copy, PartialEq, Eq, Hash)]
pub enum Permanent {
    all,
}

/// Offers for students or not: the search asks for none in particular.
#[allow(non_camel_case_types)]
#[derive(Debug, Clone, Copy, PartialEq, Eq, Hash)]
pub enum Student {
    none,
}

/// The order of the results: by date.
#[allow(non_camel_case_types)]
#[derive(Debug, Clone, Copy, PartialEq, Eq, Hash)]
pub enum OrderBy {
    sortDate,
}

/// The direction of the order: newest first.
#[allow(non_camel_case_types)]
#[derive(Debug, Clone, Copy, PartialEq, Eq, Hash)]
pub enum OderDirection {
    descending,
}

/// The text of a flag in the form.
pub open spec fn bool_text(b: bool) -> Seq<char> {
    if b {
        "true"@
    } else {
        "false"@
    }
}

fn bool_string(b: bool) -> (r: String)
    ensures
        r@ == bool_text(b),
{
    if b {
        String::from_str("true")
    } else {
        String::from_str("false")
    }
}

/// The search form of the room site.
#[allow(non_snake_case)]
#[derive(Debug, PartialEq, Eq, Hash)]
pub struct Search {
    pub query: String,
    pub priceMin: u32,
    pub priceMax: u32,
    pub state: String,
    pub permanent: Permanent,
    pub student: Student,
    pub orderBy: OrderBy,
    pub orderDir: OderDirection,
    pub startSearchMate: bool,
    pub wgStartSearch: bool,
    pub start: u32,
}

impl Default for Search {
    fn default() -> (r: Search)
        ensures
            r.query@ == Seq::<char>::empty(),
            r.priceMin == 0,
            r.priceMax == 1500,
            r.state@ == Seq::<char>::empty(),
            r.startSearchMate,
            r.wgStartSearch,
            r.start == 0,
    {
        Search {
            query: String::new(),
            priceMin: 0,
            priceMax: 1500,
            state: String::new(),
            permanent: Permanent::all,
            student: Student::none,
            orderBy: OrderBy::sortDate,
            orderDir: OderDirection::descending,
            startSearchMate: true,
            wgStartSearch: true,
            start: 0,
        }
    }
}

/// The name/value pairs of the search form, in the order of its fields. The sort order is
/// written `@sortDate`, as the site expects.
pub open spec fn search_pairs(s: Search) -> Seq<(Seq<char>, Seq<char>)> {
    seq![
        ("query"@, s.query@),
        ("priceMin"@, decimal(s.priceMin as nat)),
        ("priceMax"@, decimal(s.priceMax as nat)),
        ("state"@, s.state@),
        ("permanent"@, "all"@),
        ("student"@, "none"@),
        ("orderBy"@, "@sortDate"@),
        ("orderDir"@, "descending"@),
        ("startSearchMate"@, bool_text(s.startSearchMate)),
        ("wgStartSearch"@, bool_text(s.wgStartSearch)),
        ("start"@, decimal(s.start as nat)),
    ]
}

/// Each pair of the search form is named after a field of the search and carries that
/// field's own value: the texts as they are, the numbers in decimal digits that read back as
/// the number, the flags as `true` or `false`, and the fixed choices as the site spells them.
pub proof fn lemma_search_pairs_carry_fields(s: Search)
    ensures
        search_pairs(s).len() == 11,
        search_pairs(s)[0] == ("query"@, s.query@),
        search_pairs(s)[1].0 == "priceMin"@ && digits_value(search_pairs(s)[1].1) == s.priceMin,
        search_pairs(s)[2].0 == "priceMax"@ && digits_value(search_pairs(s)[2].1) == s.priceMax,
        search_pairs(s)[3] == ("state"@, s.state@),
        search_pairs(s)[4] == ("permanent"@, "all"@),
        search_pairs(s)[5] == ("student"@, "none"@),
        search_pairs(s)[6] == ("orderBy"@, "@sortDate"@),
        search_pairs(s)[7] == ("orderDir"@, "descending"@),
        search_pairs(s)[8] == ("startSearchMate"@, if s.startSearchMate {
            "true"@
        } else {
            "false"@
        }),
        search_pairs(s)[9] == ("wgStartSearch"@, if s.wgStartSearch {
            "true"@
        } else {
            "false"@
        }),
        search_pairs(s)[10].0 == "start"@ && digits_value(search_pairs(s)[10].1) == s.start,
{
    lemma_decimal_denotes(s.priceMin as nat);
    lemma_decimal_denotes(s.priceMax as nat);
    lemma_decimal_denotes(s.start as nat);
}

fn pair(name: &str, value: String) -> (r: (String, String))
    ensures
        r.0@ == name@,
        r.1@ == value@,
{
    (String::from_str(name), value)
}

impl Search {
    /// The name/value pairs of the form.
    pub fn form_fields(&self) -> (r: Vec<(String, String)>)
        ensures
            pair_views(r@) == search_pairs(*self),
    {
        let mut v: Vec<(String, String)> = Vec::new();
        v.push(pair("query", self.query.clone()));
        v.push(pair("priceMin", decimal_string(self.priceMin)));
        v.push(pair("priceMax", decimal_string(self.priceMax)));
        v.push(pair("state", self.state.clone()));
        v.push(pair("permanent", String::from_str("all")));
        v.push(pair("student", String::from_str("none")));
        v.push(pair("orderBy", String::from_str("@sortDate")));
        v.push(pair("orderDir", String::from_str("descending")));
        v.push(pair("startSearchMate", bool_string(self.startSearchMate)));
        v.push(pair("wgStartSearch", bool_string(self.wgStartSearch)));
        v.push(pair("start", decimal_string(self.start)));
        assert(pair_views(v@) =~= search_pairs(*self));
        v
    }

    /// The form as the body of a `application/x-www-form-urlencoded` request.
    pub fn to_query(&self) -> (r: String)
        ensures
            r@ == form_encoded(search_pairs(*self)),
    {
        let fields = self.form_fields();
        match form_urlencode(&fields) {
            Ok(s) => s,
            Err(_) => String::new(),
        }
    }
}

} // verus!
