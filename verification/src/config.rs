use vstd::prelude::*;

use crate::text::str_eq;

verus! {

/// One configured year of an institution: the calendar year, its short
/// code, and the page the schedule is read from.
pub struct YearConfig {
    pub year: i32,
    pub year_code: String,
    pub url: String,
}

/// One configured institution.
pub struct UnivConfig {
    pub name: String,
    pub prefix: String,
    pub univ_code: String,
    pub years: Vec<YearConfig>,
    pub crawler_type: String,
}

/// The first index whose institution code matches, or -1.
pub open spec fn find_univ(cfgs: Seq<UnivConfig>, code: Seq<char>) -> int
    decreases cfgs.len(),
{
    if cfgs.len() == 0 {
        -1
    } else if cfgs[0].univ_code@ == code {
        0
    } else {
        let r = find_univ(cfgs.drop_first(), code);
        if r < 0 {
            -1
        } else {
            r + 1
        }
    }
}

/// The first index whose year code matches, or -1.
pub open spec fn find_year_in(ys: Seq<YearConfig>, code: Seq<char>) -> int
    decreases ys.len(),
{
    if ys.len() == 0 {
        -1
    } else if ys[0].year_code@ == code {
        0
    } else {
        let r = find_year_in(ys.drop_first(), code);
        if r < 0 {
            -1
        } else {
            r + 1
        }
    }
}

proof fn lemma_find_univ(cfgs: Seq<UnivConfig>, code: Seq<char>, i: int)
    requires
        0 <= i <= cfgs.len(),
        forall|k: int| 0 <= k < i ==> (#[trigger] cfgs[k]).univ_code@ != code,
    ensures
        i < cfgs.len() && cfgs[i].univ_code@ == code ==> find_univ(cfgs, code) == i,
        i == cfgs.len() ==> find_univ(cfgs, code) == -1,
    decreases i,
{
    if i > 0 {
        assert(cfgs[0].univ_code@ != code);
        assert(cfgs.drop_first() =~= cfgs.skip(1));
        lemma_find_univ(cfgs.drop_first(), code, i - 1);
        assert(forall|k: int|
            0 <= k < i - 1 ==> (#[trigger] cfgs.drop_first()[k]).univ_code@ == cfgs[k
                + 1].univ_code@);
    }
}

/// The source page of the first year whose code matches, scanning the
/// institutions in configuration order, or nothing.
pub open spec fn find_year_url(cfgs: Seq<UnivConfig>, code: Seq<char>) -> Option<Seq<char>>
    decreases cfgs.len(),
{
    if cfgs.len() == 0 {
        None
    } else {
        let r = find_year_in(cfgs[0].years@, code);
        if r >= 0 {
            Some(cfgs[0].years@[r].url@)
        } else {
            find_year_url(cfgs.drop_first(), code)
        }
    }
}

proof fn lemma_find_year_url_skip(cfgs: Seq<UnivConfig>, code: Seq<char>, i: int)
    requires
        0 <= i <= cfgs.len(),
        forall|k: int| 0 <= k < i ==> find_year_in((#[trigger] cfgs[k]).years@, code) == -1,
    ensures
        find_year_url(cfgs, code) == find_year_url(cfgs.skip(i), code),
    decreases i,
{
    if i > 0 {
        assert(find_year_in(cfgs[0].years@, code) == -1);
        assert(cfgs.drop_first() =~= cfgs.skip(1));
        lemma_find_year_url_skip(cfgs.skip(1), code, i - 1);
        assert(forall|k: int|
            0 <= k < i - 1 ==> (#[trigger] cfgs.skip(1)[k]) == cfgs[k + 1]);
        assert(cfgs.skip(1).skip(i - 1) =~= cfgs.skip(i));
    } else {
        assert(cfgs.skip(0) =~= cfgs);
    }
}

proof fn lemma_find_year_in(ys: Seq<YearConfig>, code: Seq<char>, i: int)
    requires
        0 <= i <= ys.len(),
        forall|k: int| 0 <= k < i ==> (#[trigger] ys[k]).year_code@ != code,
    ensures
        i < ys.len() && ys[i].year_code@ == code ==> find_year_in(ys, code) == i,
        i == ys.len() ==> find_year_in(ys, code) == -1,
    decreases i,
{
    if i > 0 {
        assert(ys[0].year_code@ != code);
        lemma_find_year_in(ys.drop_first(), code, i - 1);
        assert(forall|k: int|
            0 <= k < i - 1 ==> (#[trigger] ys.drop_first()[k]).year_code@ == ys[k
                + 1].year_code@);
    }
}

impl UnivConfig {
    /// The first configured institution with the given code, if any.
    pub fn get_by_code<'a>(configs: &'a Vec<UnivConfig>, univ_code: &str) -> (r: Option<
        &'a UnivConfig,
    >)
        ensures
            match r {
                Some(c) => {
                    &&& find_univ(configs@, univ_code@) >= 0
                    &&& *c == configs@[find_univ(configs@, univ_code@)]
                },
                None => find_univ(configs@, univ_code@) == -1,
            },
    {
        let mut i: usize = 0;
        while i < configs.len()
            invariant
                0 <= i <= configs@.len(),
                forall|k: int| 0 <= k < i ==> (#[trigger] configs@[k]).univ_code@ != univ_code@,
            decreases configs@.len() - i,
        {
            if str_eq(configs[i].univ_code.as_str(), univ_code) {
                proof {
                    lemma_find_univ(configs@, univ_code@, i as int);
                }
                return Some(&configs[i]);
            }
            i = i + 1;
        }
        proof {
            lemma_find_univ(configs@, univ_code@, configs@.len() as int);
        }
        None
    }

    /// The display name of the institution with the given code, if any.
    pub fn get_name_by_code<'a>(configs: &'a Vec<UnivConfig>, univ_code: &str) -> (r: Option<
        &'a str,
    >)
        ensures
            match r {
                Some(n) => {
                    &&& find_univ(configs@, univ_code@) >= 0
                    &&& n@ == configs@[find_univ(configs@, univ_code@)].name@
                },
                None => find_univ(configs@, univ_code@) == -1,
            },
    {
        match Self::get_by_code(configs, univ_code) {
            Some(c) => Some(c.name.as_str()),
            None => None,
        }
    }

    /// The source page of the first configured year, over all institutions
    /// in configuration order, whose year code matches.
    pub fn get_year_by_code<'a>(configs: &'a Vec<UnivConfig>, year_code: &str) -> (r: Option<
        &'a str,
    >)
        ensures
            match r {
                Some(u) => find_year_url(configs@, year_code@) == Some(u@),
                None => find_year_url(configs@, year_code@) is None,
            },
    {
        let mut i: usize = 0;
        while i < configs.len()
            invariant
                0 <= i <= configs@.len(),
                forall|k: int|
                    0 <= k < i ==> find_year_in((#[trigger] configs@[k]).years@, year_code@)
                        == -1,
            decreases configs@.len() - i,
        {
            let years = &configs[i].years;
            let mut j: usize = 0;
            while j < years.len()
                invariant
                    years@ == configs@[i as int].years@,
                    0 <= i < configs@.len(),
                    0 <= j <= years@.len(),
                    forall|k: int|
                        0 <= k < i ==> find_year_in((#[trigger] configs@[k]).years@, year_code@)
                            == -1,
                    forall|k: int| 0 <= k < j ==> (#[trigger] years@[k]).year_code@ != year_code@,
                decreases years@.len() - j,
            {
                if str_eq(years[j].year_code.as_str(), year_code) {
                    proof {
                        lemma_find_year_in(years@, year_code@, j as int);
                        lemma_find_year_url_skip(configs@, year_code@, i as int);
                        assert(configs@.skip(i as int)[0] == configs@[i as int]);
                        assert(find_year_url(configs@, year_code@) == Some(
                            years@[j as int].url@,
                        ));
                    }
                    return Some(years[j].url.as_str());
                }
                j = j + 1;
            }
            proof {
                lemma_find_year_in(years@, year_code@, years@.len() as int);
            }
            i = i + 1;
        }
        proof {
            lemma_find_year_url_skip(configs@, year_code@, configs@.len() as int);
            assert(configs@.skip(configs@.len() as int) =~= Seq::<UnivConfig>::empty());
        }
        None
    }
}

} // verus!
