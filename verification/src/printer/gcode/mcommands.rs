//! M commands: build progress and motor hold.
use vstd::prelude::*;
use crate::binary32::{as_u8, as_u16, to_u8, to_u16};
use crate::printer::{Settings, PrintStatus};
use super::{Field, ParseGcodeError, scope};

verus! {

/// Set the build percentage and the time left (`M73`).
#[derive(Debug, Clone, Copy, PartialEq, Eq, Structural)]
pub struct M73 {
    pub progress: u8,
    pub time: u16,
    pub silent: bool,
}

/// The `M73` the fields describe: `P`/`Q` set the progress, `R` the time left,
/// `S` the time left in silent mode; the last field of a kind wins, other
/// letters are skipped and a field without a number is an error.
pub open spec fn m73_from(fields: Seq<Field>) -> Option<M73>
    decreases fields.len(),
{
    if fields.len() == 0 {
        Some(M73 { progress: 0, time: 0, silent: false })
    } else {
        match m73_from(fields.drop_last()) {
            None => None,
            Some(m) => {
                let f = fields.last();
                match f.number {
                    None => None,
                    Some(b) => if f.letter == 'P' || f.letter == 'Q' {
                        Some(M73 { progress: as_u8(b), time: m.time, silent: m.silent })
                    } else if f.letter == 'R' {
                        Some(M73 { progress: m.progress, time: as_u16(b), silent: m.silent })
                    } else if f.letter == 'S' {
                        Some(M73 { progress: m.progress, time: as_u16(b), silent: true })
                    } else {
                        Some(m)
                    },
                }
            },
        }
    }
}

proof fn lemma_m73_prefix(fields: Seq<Field>, n: int)
    requires
        0 <= n <= fields.len(),
        m73_from(fields.take(n)) is None,
    ensures
        m73_from(fields) is None,
    decreases fields.len() - n,
{
    if n < fields.len() {
        assert(fields.drop_last().take(n) =~= fields.take(n));
        lemma_m73_prefix(fields.drop_last(), n);
    } else {
        assert(fields.take(n) =~= fields);
    }
}

/// A field that sets the progress (`P` or `Q`).
pub open spec fn sets_progress(f: Field) -> bool {
    f.letter == 'P' || f.letter == 'Q'
}

/// A field that sets the time left (`R`, or `S` in silent mode).
pub open spec fn sets_time(f: Field) -> bool {
    f.letter == 'R' || f.letter == 'S'
}

/// Every field carries a number.
pub open spec fn all_numbered(fields: Seq<Field>) -> bool {
    forall|i: int| 0 <= i < fields.len() ==> (#[trigger] fields[i]).number is Some
}

proof fn lemma_m73_time_at(fields: Seq<Field>, j: int)
    requires
        all_numbered(fields),
        0 <= j < fields.len(),
        sets_time(fields[j]),
        forall|k: int| j < k < fields.len() ==> !sets_time(#[trigger] fields[k]),
    ensures
        m73_from(fields) matches Some(m) && m.time == as_u16(fields[j].number.unwrap()),
    decreases fields.len(),
{
    let r = fields.drop_last();
    assert(all_numbered(r)) by {
        assert forall|i: int| 0 <= i < r.len() implies (#[trigger] r[i]).number is Some by {
            assert(r[i] == fields[i]);
        }
    }
    lemma_m73_all_numbered(r);
    assert(fields.last().number is Some);
    if j < fields.len() - 1 {
        assert forall|k: int| j < k < r.len() implies !sets_time(#[trigger] r[k]) by {
            assert(r[k] == fields[k]);
        }
        assert(r[j] == fields[j]);
        lemma_m73_time_at(r, j);
        assert(!sets_time(fields[fields.len() - 1]));
    }
}

proof fn lemma_m73_progress_at(fields: Seq<Field>, j: int)
    requires
        all_numbered(fields),
        0 <= j < fields.len(),
        sets_progress(fields[j]),
        forall|k: int| j < k < fields.len() ==> !sets_progress(#[trigger] fields[k]),
    ensures
        m73_from(fields) matches Some(m) && m.progress == as_u8(fields[j].number.unwrap()),
    decreases fields.len(),
{
    let r = fields.drop_last();
    assert(all_numbered(r)) by {
        assert forall|i: int| 0 <= i < r.len() implies (#[trigger] r[i]).number is Some by {
            assert(r[i] == fields[i]);
        }
    }
    lemma_m73_all_numbered(r);
    assert(fields.last().number is Some);
    if j < fields.len() - 1 {
        assert forall|k: int| j < k < r.len() implies !sets_progress(#[trigger] r[k]) by {
            assert(r[k] == fields[k]);
        }
        assert(r[j] == fields[j]);
        lemma_m73_progress_at(r, j);
        assert(!sets_progress(fields[fields.len() - 1]));
    }
}

proof fn lemma_m73_all_numbered(fields: Seq<Field>)
    requires
        all_numbered(fields),
    ensures
        m73_from(fields) matches Some(m) && (m.silent <==> exists|i: int|
            0 <= i < fields.len() && (#[trigger] fields[i]).letter == 'S') && ((forall|k: int|
            0 <= k < fields.len() ==> !sets_time(#[trigger] fields[k])) ==> m.time == 0) && ((forall|k: int|
            0 <= k < fields.len() ==> !sets_progress(#[trigger] fields[k])) ==> m.progress == 0),
    decreases fields.len(),
{
    if fields.len() > 0 {
        let r = fields.drop_last();
        assert(all_numbered(r)) by {
            assert forall|i: int| 0 <= i < r.len() implies (#[trigger] r[i]).number is Some by {
                assert(r[i] == fields[i]);
            }
        }
        lemma_m73_all_numbered(r);
        assert(fields.last().number is Some);
        let m = m73_from(fields).unwrap();
        let m0 = m73_from(r).unwrap();
        assert((exists|i: int| 0 <= i < fields.len() && (#[trigger] fields[i]).letter == 'S') <==> ((exists|i: int|
            0 <= i < r.len() && (#[trigger] r[i]).letter == 'S') || fields.last().letter == 'S')) by {
            if exists|i: int| 0 <= i < fields.len() && (#[trigger] fields[i]).letter == 'S' {
                let i = choose|i: int| 0 <= i < fields.len() && (#[trigger] fields[i]).letter == 'S';
                if i < r.len() {
                    assert(r[i] == fields[i]);
                }
            }
            if exists|i: int| 0 <= i < r.len() && (#[trigger] r[i]).letter == 'S' {
                let i = choose|i: int| 0 <= i < r.len() && (#[trigger] r[i]).letter == 'S';
                assert(fields[i] == r[i]);
            }
        }
        if forall|k: int| 0 <= k < fields.len() ==> !sets_time(#[trigger] fields[k]) {
            assert forall|k: int| 0 <= k < r.len() implies !sets_time(#[trigger] r[k]) by {
                assert(r[k] == fields[k]);
            }
            assert(!sets_time(fields[fields.len() - 1]));
        }
        if forall|k: int| 0 <= k < fields.len() ==> !sets_progress(#[trigger] fields[k]) {
            assert forall|k: int| 0 <= k < r.len() implies !sets_progress(#[trigger] r[k]) by {
                assert(r[k] == fields[k]);
            }
            assert(!sets_progress(fields[fields.len() - 1]));
        }
    }
}

/// How an `M73` reads its fields: it reads when every field has a number,
/// and then its progress is the last `P` or `Q` read `as u8` (0 without one),
/// its time left the last `R` or `S` read `as u16` (0 without one), and it is
/// in silent mode when a field is `S`. A field without a number is an error.
pub proof fn lemma_m73_reads_fields(fields: Seq<Field>)
    ensures
        (m73_from(fields) is Some) == all_numbered(fields),
        all_numbered(fields) ==> {
            let m = m73_from(fields).unwrap();
            &&& forall|j: int|
                0 <= j < fields.len() && sets_time(fields[j]) && (forall|k: int|
                    j < k < fields.len() ==> !sets_time(#[trigger] fields[k])) ==> m.time == as_u16(
                    #[trigger] fields[j].number.unwrap(),
                )
            &&& (forall|k: int| 0 <= k < fields.len() ==> !sets_time(#[trigger] fields[k])) ==> m.time == 0
            &&& forall|j: int|
                0 <= j < fields.len() && sets_progress(fields[j]) && (forall|k: int|
                    j < k < fields.len() ==> !sets_progress(#[trigger] fields[k])) ==> m.progress == as_u8(
                    #[trigger] fields[j].number.unwrap(),
                )
            &&& (forall|k: int| 0 <= k < fields.len() ==> !sets_progress(#[trigger] fields[k])) ==> m.progress
                == 0
            &&& m.silent <==> exists|i: int| 0 <= i < fields.len() && (#[trigger] fields[i]).letter == 'S'
        },
{
    if all_numbered(fields) {
        lemma_m73_all_numbered(fields);
        let m = m73_from(fields).unwrap();
        assert forall|j: int|
            0 <= j < fields.len() && sets_time(fields[j]) && (forall|k: int|
                j < k < fields.len() ==> !sets_time(#[trigger] fields[k])) implies m.time == as_u16(
            #[trigger] fields[j].number.unwrap(),
        ) by {
            lemma_m73_time_at(fields, j);
        }
        assert forall|j: int|
            0 <= j < fields.len() && sets_progress(fields[j]) && (forall|k: int|
                j < k < fields.len() ==> !sets_progress(#[trigger] fields[k])) implies m.progress == as_u8(
            #[trigger] fields[j].number.unwrap(),
        ) by {
            lemma_m73_progress_at(fields, j);
        }
    } else {
        let i = choose|i: int| 0 <= i < fields.len() && !((#[trigger] fields[i]).number is Some);
        assert(fields.take(i + 1).drop_last() =~= fields.take(i));
        assert(fields.take(i + 1).last() == fields[i]);
        lemma_m73_prefix(fields, i + 1);
    }
}

/// What a progress report shows: the progress in percent and the minutes left.
#[derive(Debug, Clone, Copy, PartialEq, Eq, Structural)]
pub struct ProgressNote {
    pub progress: u8,
    pub minutes_left: u16,
}

impl M73 {
    pub fn new(fields: &[Field], setting: &Settings) -> (r: Result<Self, ParseGcodeError>)
        ensures
            match r {
                Ok(m) => m73_from(fields@) == Some(m),
                Err(_) => m73_from(fields@) is None,
            },
    {
        let mut progress: u8 = 0;
        let mut time: u16 = 0;
        let mut silent: bool = false;
        let mut i: usize = 0;
        while i < fields.len()
            invariant
                i <= fields.len(),
                m73_from(fields@.take(i as int)) == Some(M73 { progress, time, silent }),
            decreases fields.len() - i,
        {
            assert(fields@.take(i + 1).drop_last() =~= fields@.take(i as int));
            let field = fields[i];
            match field.number {
                Some(number) => {
                    if field.letter == 'P' {
                        progress = to_u8(number);
                    } else if field.letter == 'R' {
                        time = to_u16(number);
                    } else if field.letter == 'Q' {
                        progress = to_u8(number);
                    } else if field.letter == 'S' {
                        time = to_u16(number);
                        silent = true;
                    }
                },
                None => {
                    proof {
                        lemma_m73_prefix(fields@, i + 1);
                    }
                    return Err(ParseGcodeError);
                },
            }
            i = i + 1;
        }
        assert(fields@.take(i as int) =~= fields@);
        Ok(M73 { progress, time, silent })
    }

    pub fn scope(&self) -> (r: u8)
        ensures
            r == scope::CONFIG | scope::PI,
    {
        scope::CONFIG | scope::PI
    }

    /// Announces the progress (returned) when it is a multiple of 20 percent
    /// and not in silent mode; the settings are left as they are.
    pub fn edit_config(&self, settings: &mut Settings) -> (r: Option<u8>)
        ensures
            *final(settings) == *old(settings),
            r == (if self.progress % 20 == 0 && !self.silent {
                Some(self.progress)
            } else {
                None
            }),
    {
        if self.progress % 20 != 0 {
            return None;
        }
        if !self.silent {
            Some(self.progress)
        } else {
            None
        }
    }

    /// Records the progress in the print status: in the silent fields for a
    /// silent-mode report, otherwise in the normal ones, which are reported (returned).
    pub fn run_pi(&self, state: &mut PrintStatus) -> (r: Option<ProgressNote>)
        ensures
            self.silent ==> *final(state) == (PrintStatus {
                silent_progress: self.progress,
                silent_time_left: self.time,
                ..*old(state)
            }) && r is None,
            !self.silent ==> *final(state) == (PrintStatus {
                progress: self.progress,
                time_left: self.time,
                ..*old(state)
            }) && r == Some(ProgressNote { progress: self.progress, minutes_left: self.time }),
    {
        if self.silent {
            state.silent_progress = self.progress;
            state.silent_time_left = self.time;
            None
        } else {
            state.progress = self.progress;
            state.time_left = self.time;
            Some(ProgressNote { progress: self.progress, minutes_left: self.time })
        }
    }
}

/// Stop idle hold (`M84`): accepted, with nothing for the controller.
#[derive(Debug, Clone, Copy, PartialEq, Eq, Structural)]
pub struct M84;

impl M84 {
    pub fn new(fields: &[Field], setting: &Settings) -> (r: Result<Self, ParseGcodeError>)
        ensures
            r == Ok::<M84, ParseGcodeError>(M84),
    {
        Ok(M84)
    }
}

} // verus!
