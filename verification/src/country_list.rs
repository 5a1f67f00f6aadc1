//! Lists of countries to build indexes for.
use vstd::prelude::*;
use crate::autocomplete::{has_code, has_code_exec};
use crate::openaddresses::{code_of, code_text, lower_code, normalise_code, parse_code};
use crate::text::{
    chars_of, is_white_space, is_whitespace, opt_str_view, split_chars, split_where, views,
};

verus! {

broadcast use vstd::seq::group_seq_axioms;

pub open spec fn list_separator() -> spec_fn(char) -> bool {
    |c: char| c == ',' || is_white_space(c)
}

/// The country codes among the pieces of a list.
pub open spec fn codes_among(pieces: Seq<Seq<char>>) -> Seq<Seq<char>>
    decreases pieces.len(),
{
    if pieces.len() == 0 {
        Seq::empty()
    } else {
        match code_of(pieces.last()) {
            Some(c) => codes_among(pieces.drop_last()).push(c),
            None => codes_among(pieces.drop_last()),
        }
    }
}

pub open spec fn code_texts(codes: Seq<[u8; 2]>) -> Seq<Seq<char>> {
    Seq::new(codes.len(), |i: int| code_text(codes[i]))
}

/// The country codes in a list, in lower case.
pub open spec fn codes_in(list: Seq<char>) -> Seq<Seq<char>> {
    codes_among(split_where(list, list_separator()))
}

/// Reads a list of country codes between commas and white space. What is no
/// code is passed over.
pub fn parse_country_list(list: &str) -> (r: Vec<[u8; 2]>)
    ensures
        code_texts(r@) == codes_in(list@),
{
    let is_sep = |x: char| -> (b: bool)
        ensures
            b == (x == ',' || is_white_space(x)),
    {
        x == ',' || is_whitespace(x)
    };
    let pieces = split_chars(&chars_of(list), is_sep, Ghost(list_separator()));
    let mut codes: Vec<[u8; 2]> = Vec::new();
    for i in 0..pieces.len()
        invariant
            code_texts(codes@) == codes_among(views(pieces@).take(i as int)),
    {
        assert(views(pieces@).take(i + 1).drop_last() =~= views(pieces@).take(i as int));
        let ghost before = code_texts(codes@);
        match parse_code(&pieces[i]) {
            Some(cc) => {
                codes.push(cc);
                assert(code_texts(codes@) =~= before.push(code_text(cc)));
            },
            None => {},
        }
    }
    assert(views(pieces@).take(pieces@.len() as int) =~= views(pieces@));
    codes
}

/// The countries to build indexes for.
pub struct CountryFilter {
    /// In lower case; none for all countries.
    pub codes: Option<Vec<[u8; 2]>>,
}

impl CountryFilter {
    /// Whether a country is to be built.
    pub open spec fn admits(&self, cc: [u8; 2]) -> bool {
        match self.codes {
            Some(codes) => has_code(codes@, lower_code(cc)@),
            None => true,
        }
    }

    /// Whether a country is among those that are listed.
    pub open spec fn asks_for(&self, cc: [u8; 2]) -> bool {
        self.codes is Some && self.admits(cc)
    }

    /// Reads a list of countries. A list without any country code filters
    /// nothing.
    pub fn parse(list: &str) -> (r: CountryFilter)
        ensures
            match r.codes {
                Some(v) => v@.len() > 0 && code_texts(v@) == codes_in(list@),
                None => codes_in(list@).len() == 0,
            },
    {
        let codes = parse_country_list(list);
        if codes.len() == 0 {
            CountryFilter { codes: None }
        } else {
            CountryFilter { codes: Some(codes) }
        }
    }

    /// Whether a country is to be built.
    pub fn contains(&self, cc: &[u8; 2]) -> (r: bool)
        ensures
            r == self.admits(*cc),
    {
        match &self.codes {
            Some(codes) => has_code_exec(codes.as_slice(), &normalise_code(cc)),
            None => true,
        }
    }

    /// The country that something belongs to, if it is to be built: a code
    /// with a zero byte is no country.
    pub open spec fn owner(&self, cc: Option<[u8; 2]>) -> Option<Seq<u8>> {
        match cc {
            Some(c) => if c[0] != 0 && c[1] != 0 && self.admits(c) {
                Some(lower_code(c)@)
            } else {
                None
            },
            None => None,
        }
    }

    pub fn owning_country(&self, cc: Option<[u8; 2]>) -> (r: Option<[u8; 2]>)
        ensures
            match r {
                Some(c) => self.owner(cc) == Some(c@),
                None => self.owner(cc) is None,
            },
    {
        match cc {
            Some(c) => {
                if c[0] != 0 && c[1] != 0 && self.contains(&c) {
                    Some(normalise_code(&c))
                } else {
                    None
                }
            },
            None => None,
        }
    }
}

/// Whether codes are those of the countries that are passed over: the ones
/// listed, or else Australia where it is not asked for.
pub open spec fn is_skip_list(
    codes: Seq<[u8; 2]>,
    arg: Option<Seq<char>>,
    filter: CountryFilter,
) -> bool {
    match arg {
        Some(list) => code_texts(codes) == codes_in(list),
        None => if filter.asks_for([97, 117]) {
            codes.len() == 0
        } else {
            codes.len() == 1 && codes[0]@ == seq![97u8, 117u8]
        },
    }
}

/// The countries that are passed over. Where nothing is said, that is
/// Australia, whose addresses come from a fresher source, unless the filter
/// asks for it by name.
pub fn skip_list(arg: Option<&str>, filter: &CountryFilter) -> (r: Vec<[u8; 2]>)
    ensures
        is_skip_list(r@, opt_str_view(arg), *filter),
{
    match arg {
        Some(list) => parse_country_list(list),
        None => {
            let mut out: Vec<[u8; 2]> = Vec::new();
            if !(filter.codes.is_some() && filter.contains(&[97, 117])) {
                out.push([97, 117]);
                assert(out@[0]@ =~= seq![97u8, 117u8]);
            }
            out
        },
    }
}

/// The country of a directory of addresses, unless it is passed over or not
/// asked for. The directory is named like the country.
pub fn country_dir(name: &str, skip: &[[u8; 2]], filter: &CountryFilter) -> (r: Option<[u8; 2]>)
    ensures
        match r {
            Some(cc) => code_of(name@) == Some(code_text(cc)) && !has_code(skip@, cc@)
                && filter.admits(cc),
            None => match code_of(name@) {
                Some(t) => has_code(skip@, seq![t[0] as u8, t[1] as u8]) || !filter.admits(
                    [t[0] as u8, t[1] as u8],
                ),
                None => true,
            },
        },
{
    match parse_code(&chars_of(name)) {
        Some(cc) => {
            proof {
                let t = code_text(cc);
                assert(t[0] as u8 == cc[0] && t[1] as u8 == cc[1]);
                assert(seq![t[0] as u8, t[1] as u8] =~= cc@);
                let again = [t[0] as u8, t[1] as u8];
                assert(again@ =~= cc@);
                assert(lower_code(again)@ =~= lower_code(cc)@);
            }
            if has_code_exec(skip, &cc) || !filter.contains(&cc) {
                None
            } else {
                Some(cc)
            }
        },
        None => None,
    }
}

} // verus!
