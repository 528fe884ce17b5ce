//! The query grammar: `<match>[!<opt>]*`. The match field is split on `.`
//! into a name term and an extension filter; the option fields toggle which
//! directories the search may descend into and how deep it goes.

use vstd::prelude::*;
use vstd::string::StrSliceExecFns;
use vstd::string::StringExecFns;

use crate::fs_model::FsEntry;
use crate::fs_model::FILE_ATTRIBUTE_HIDDEN;
use crate::fs_model::FILE_ATTRIBUTE_READONLY;
use crate::text::all_digits;
use crate::text::ci_equal;
use crate::text::dec_value;
use crate::text::find_char;
use crate::text::find_from;
use crate::text::lemma_find_from;
use crate::text::parse_usize;
use crate::text::str_ci_equal;
use crate::text::trim;
use crate::text::trim_spec;

verus! {

/// Rejection of a query whose extension filter is present but empty.
#[derive(Clone, Copy, PartialEq, Eq, Debug, Structural)]
pub enum ParseError {
    EmptyExtension,
}

/// The structured search specification a query string parses to.
#[derive(Debug, Clone)]
pub struct SearchEngineParameter {
    pub depth: usize,
    pub term: Option<String>,
    pub extension: Option<String>,
    pub search_readonly_dirs: bool,
    pub search_hidden_dirs: bool,
    pub search_bin_dirs: bool,
    pub search_lib_dirs: bool,
    pub search_tmp_dirs: bool,
    pub search_windows_folder: bool,
}

/// Mathematical image of a `SearchEngineParameter`.
pub ghost struct ParamsView {
    pub depth: int,
    pub term: Option<Seq<char>>,
    pub extension: Option<Seq<char>>,
    pub search_readonly_dirs: bool,
    pub search_hidden_dirs: bool,
    pub search_bin_dirs: bool,
    pub search_lib_dirs: bool,
    pub search_tmp_dirs: bool,
    pub search_windows_folder: bool,
}

impl View for SearchEngineParameter {
    type V = ParamsView;

    open spec fn view(&self) -> ParamsView {
        ParamsView {
            depth: self.depth as int,
            term: match self.term {
                Option::Some(t) => Option::Some(t@),
                Option::None => Option::None,
            },
            extension: match self.extension {
                Option::Some(e) => Option::Some(e@),
                Option::None => Option::None,
            },
            search_readonly_dirs: self.search_readonly_dirs,
            search_hidden_dirs: self.search_hidden_dirs,
            search_bin_dirs: self.search_bin_dirs,
            search_lib_dirs: self.search_lib_dirs,
            search_tmp_dirs: self.search_tmp_dirs,
            search_windows_folder: self.search_windows_folder,
        }
    }
}

/// The conservative default: nothing matched yet, all exclusions active,
/// depth zero.
pub open spec fn base_params(term: Option<Seq<char>>, extension: Option<Seq<char>>)
    -> ParamsView {
    ParamsView {
        depth: 0,
        term,
        extension,
        search_readonly_dirs: false,
        search_hidden_dirs: false,
        search_bin_dirs: false,
        search_lib_dirs: false,
        search_tmp_dirs: false,
        search_windows_folder: false,
    }
}

/// The effect of one option field on the specification: `d<N>` sets the
/// depth when `<N>` is numeric and in range (anything else leaves it
/// unchanged), single letters enable one directory class each, and
/// unrecognized fields are ignored.
pub open spec fn apply_option(p: ParamsView, field: Seq<char>) -> ParamsView {
    let f = trim_spec(field);
    if f.len() >= 1 && f[0] == 'd' {
        let digits = f.skip(1);
        if digits.len() > 0 && all_digits(digits) && dec_value(digits) <= usize::MAX {
            ParamsView { depth: dec_value(digits), ..p }
        } else {
            p
        }
    } else if f.len() == 1 && f[0] == 'r' {
        ParamsView { search_readonly_dirs: true, ..p }
    } else if f.len() == 1 && f[0] == 'h' {
        ParamsView { search_hidden_dirs: true, ..p }
    } else if f.len() == 1 && f[0] == 'b' {
        ParamsView { search_bin_dirs: true, ..p }
    } else if f.len() == 1 && f[0] == 'l' {
        ParamsView { search_lib_dirs: true, ..p }
    } else if f.len() == 1 && f[0] == 't' {
        ParamsView { search_tmp_dirs: true, ..p }
    } else if f.len() == 1 && f[0] == 'w' {
        ParamsView { search_windows_folder: true, ..p }
    } else {
        p
    }
}

/// Folds the option fields of `s` starting at `i` (fields are separated by
/// `'!'`) over the specification `p`.
pub open spec fn apply_options_from(p: ParamsView, s: Seq<char>, i: int) -> ParamsView
    decreases s.len() - i,
    via apply_options_from_decreases
{
    if i < 0 || i > s.len() {
        p
    } else {
        let j = find_from(s, i, '!');
        let p2 = apply_option(p, s.subrange(i, j));
        if j >= s.len() {
            p2
        } else {
            apply_options_from(p2, s, j + 1)
        }
    }
}

#[via_fn]
proof fn apply_options_from_decreases(p: ParamsView, s: Seq<char>, i: int) {
    if 0 <= i <= s.len() {
        lemma_find_from(s, i, '!');
    }
}

/// What a whole query string parses to: `None` is the empty-extension
/// rejection; otherwise the match field sets `term`/`extension` and the
/// remaining fields are applied as options.
pub open spec fn parse_spec(s: Seq<char>) -> Option<ParamsView> {
    let m = find_from(s, 0, '!');
    let mf = s.subrange(0, m);
    let d1 = find_from(mf, 0, '.');
    if d1 >= mf.len() {
        Some(run_options(base_params(Some(mf), None), s, m))
    } else {
        let d2 = find_from(mf, d1 + 1, '.');
        let ext = mf.subrange(d1 + 1, d2);
        if ext.len() == 0 {
            None
        } else {
            let term = if d1 == 0 {
                None
            } else {
                Some(mf.subrange(0, d1))
            };
            Some(run_options(base_params(term, Some(ext)), s, m))
        }
    }
}

/// Applies the option fields that follow the match field, if any.
pub open spec fn run_options(p: ParamsView, s: Seq<char>, m: int) -> ParamsView {
    if m >= s.len() {
        p
    } else {
        apply_options_from(p, s, m + 1)
    }
}

/// Whether the exclusion policy lets the search descend into a directory
/// with this name and these attribute bits.
pub open spec fn can_descend(p: ParamsView, name: Seq<char>, attributes: u32) -> bool {
    (p.search_readonly_dirs || attributes & FILE_ATTRIBUTE_READONLY == 0)
        && (p.search_hidden_dirs || attributes & FILE_ATTRIBUTE_HIDDEN == 0)
        && (p.search_bin_dirs || !ci_equal(name, seq!['b', 'i', 'n']))
        && (p.search_lib_dirs || !ci_equal(name, seq!['l', 'i', 'b']))
        && (p.search_tmp_dirs || !ci_equal(name, seq!['t', 'm', 'p']))
        && (p.search_windows_folder || !ci_equal(
            name,
            seq!['w', 'i', 'n', 'd', 'o', 'w', 's'],
        ))
}

/// While `search_tmp_dirs` is off — as it is by default — a directory
/// named `tmp` in any combination of cases is never descended into,
/// whatever its attributes and the other toggles.
pub proof fn lemma_tmp_excluded_by_default(p: ParamsView, name: Seq<char>, attributes: u32)
    requires
        !p.search_tmp_dirs,
        ci_equal(name, seq!['t', 'm', 'p']),
    ensures
        !can_descend(p, name, attributes),
{
}

/// The name rules exclude by exact (case-insensitive) match, not by
/// prefix: a plain directory named `tmp-test` passes the policy under the
/// conservative default toggles.
pub proof fn lemma_tmp_test_not_excluded(p: ParamsView, name: Seq<char>, attributes: u32)
    requires
        name == seq!['t', 'm', 'p', '-', 't', 'e', 's', 't'],
        attributes & FILE_ATTRIBUTE_READONLY == 0,
        attributes & FILE_ATTRIBUTE_HIDDEN == 0,
    ensures
        can_descend(p, name, attributes),
{
    assert(name.len() == 8);
}

impl SearchEngineParameter {
    /// Parses a raw query string into a search specification.
    pub fn parse_search_term(t: &str) -> (r: Result<SearchEngineParameter, ParseError>)
        ensures
            match r {
                Ok(p) => parse_spec(t@) == Some(p@),
                Err(e) => parse_spec(t@) is None && e == ParseError::EmptyExtension,
            },
    {
        let len = t.unicode_len();
        let m = find_char(t, 0, '!');
        let match_field = t.substring_char(0, m);
        let mut params = SearchEngineParameter {
            depth: 0,
            term: None,
            extension: None,
            search_readonly_dirs: false,
            search_hidden_dirs: false,
            search_bin_dirs: false,
            search_lib_dirs: false,
            search_tmp_dirs: false,
            search_windows_folder: false,
        };
        let d1 = find_char(match_field, 0, '.');
        if d1 >= m {
            params.term = Some(match_field.to_owned());
        } else {
            let d2 = find_char(match_field, d1 + 1, '.');
            if d2 == d1 + 1 {
                return Err(ParseError::EmptyExtension);
            }
            if d1 > 0 {
                params.term = Some(match_field.substring_char(0, d1).to_owned());
            }
            params.extension = Some(match_field.substring_char(d1 + 1, d2).to_owned());
        }
        let ghost p0 = params@;
        proof {
            assert(parse_spec(t@) == Some(run_options(p0, t@, m as int)));
        }
        if m >= len {
            return Ok(params);
        }
        let mut pos: usize = m + 1;
        while pos <= len
            invariant
                m < len,
                m + 1 <= pos <= len,
                len == t@.len(),
                parse_spec(t@) == Some(run_options(p0, t@, m as int)),
                apply_options_from(p0, t@, m as int + 1) == apply_options_from(
                    params@,
                    t@,
                    pos as int,
                ),
            decreases len - pos,
        {
            let j = find_char(t, pos, '!');
            let field = t.substring_char(pos, j);
            Self::apply_option_field(&mut params, field);
            if j >= len {
                return Ok(params);
            }
            pos = j + 1;
        }
        Ok(params)
    }

    /// Applies one option field to the specification under construction.
    fn apply_option_field(params: &mut SearchEngineParameter, field: &str)
        ensures
            final(params)@ == apply_option(old(params)@, field@),
    {
        let f = trim(field);
        let flen = f.unicode_len();
        if flen >= 1 && f.get_char(0) == 'd' {
            let digits = f.substring_char(1, flen);
            proof {
                assert(digits@ =~= trim_spec(field@).skip(1));
            }
            if let Some(d) = parse_usize(digits) {
                params.depth = d;
            }
        } else if flen == 1 {
            let c = f.get_char(0);
            if c == 'r' {
                params.search_readonly_dirs = true;
            } else if c == 'h' {
                params.search_hidden_dirs = true;
            } else if c == 'b' {
                params.search_bin_dirs = true;
            } else if c == 'l' {
                params.search_lib_dirs = true;
            } else if c == 't' {
                params.search_tmp_dirs = true;
            } else if c == 'w' {
                params.search_windows_folder = true;
            }
        }
    }

    /// The exclusion policy: whether the search may descend into the
    /// directory entry `dir` under the specification `p`.
    pub fn dir_can_be_searched(dir: &FsEntry, p: &SearchEngineParameter) -> (r: bool)
        ensures
            r == can_descend(p@, dir.name@, dir.attributes),
    {
        let mut can_be = true;

        if !p.search_readonly_dirs {
            can_be = can_be && (dir.attributes & FILE_ATTRIBUTE_READONLY == 0);
        }
        if !p.search_hidden_dirs {
            can_be = can_be && (dir.attributes & FILE_ATTRIBUTE_HIDDEN == 0);
        }
        proof {
            reveal_strlit("bin");
            reveal_strlit("lib");
            reveal_strlit("tmp");
            reveal_strlit("windows");
            assert("bin"@ =~= seq!['b', 'i', 'n']);
            assert("lib"@ =~= seq!['l', 'i', 'b']);
            assert("tmp"@ =~= seq!['t', 'm', 'p']);
            assert("windows"@ =~= seq!['w', 'i', 'n', 'd', 'o', 'w', 's']);
        }
        if !p.search_bin_dirs {
            can_be = can_be && !str_ci_equal(dir.name.as_str(), "bin");
        }
        if !p.search_lib_dirs {
            can_be = can_be && !str_ci_equal(dir.name.as_str(), "lib");
        }
        if !p.search_tmp_dirs {
            can_be = can_be && !str_ci_equal(dir.name.as_str(), "tmp");
        }
        if !p.search_windows_folder {
            can_be = can_be && !str_ci_equal(dir.name.as_str(), "windows");
        }

        can_be
    }
}

} // verus!
