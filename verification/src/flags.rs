//! The commands of the tool and the flags that each command accepts.

use vstd::prelude::*;
use crate::assoc::{assoc_map, distinct_keys, lemma_assoc_contains, lemma_assoc_push, lemma_assoc_update, lemma_assoc_value};
use crate::error::{CliError, CliErrorView, unit_result_view};
use crate::text::str_eq;

verus! {

/// A command of the tool.
#[allow(non_camel_case_types, clippy::upper_case_acronyms)]
#[derive(PartialEq, Eq, Structural, Hash, Clone, Copy, Debug)]
pub enum CMD {
    ENCRYPT,
    DECRYPT,
    HELP,
}

impl CMD {
    /// The name under which the command is printed.
    pub open spec fn spec_name(self) -> Seq<char> {
        match self {
            CMD::ENCRYPT => "encrypt"@,
            CMD::DECRYPT => "decrypt"@,
            CMD::HELP => "help"@,
        }
    }

    /// The name under which the command is printed.
    pub fn to_string(&self) -> (s: String)
        ensures
            s@ == self.spec_name(),
    {
        match self {
            CMD::ENCRYPT => "encrypt".to_owned(),
            CMD::DECRYPT => "decrypt".to_owned(),
            CMD::HELP => "help".to_owned(),
        }
    }
}


/// The boolean flags that a command accepts, in table order.
pub open spec fn bool_flag_names(cmd: CMD) -> Seq<Seq<char>> {
    match cmd {
        CMD::ENCRYPT => seq!["--no-delete"@],
        _ => Seq::empty(),
    }
}

/// The flags with a value that a command accepts, in table order, each with
/// its default value; a flag without a default is mandatory.
pub open spec fn str_flag_table(cmd: CMD) -> Seq<(Seq<char>, Option<Seq<char>>)> {
    match cmd {
        CMD::ENCRYPT => seq![("--name"@, None), ("--location"@, None)],
        CMD::DECRYPT => seq![("--location"@, None)],
        CMD::HELP => Seq::empty(),
    }
}

/// Whether `k` is a flag with a value that `cmd` accepts.
pub open spec fn is_str_flag(cmd: CMD, k: Seq<char>) -> bool {
    exists|i: int| 0 <= i < str_flag_table(cmd).len() && str_flag_table(cmd)[i].0 == k
}

/// The view of an optional string slice.
pub open spec fn opt_str_view(o: Option<&str>) -> Option<Seq<char>> {
    match o {
        Some(s) => Some(s@),
        None => None,
    }
}

/// The boolean flags that `cmd` accepts.
pub fn allowed_bool_flags(cmd: CMD) -> (r: Vec<&'static str>)
    ensures
        r@.len() == bool_flag_names(cmd).len(),
        forall|i: int| 0 <= i < r@.len() ==> r@[i]@ == bool_flag_names(cmd)[i],
{
    match cmd {
        CMD::ENCRYPT => vec!["--no-delete"],
        _ => Vec::new(),
    }
}

/// The flags with a value that `cmd` accepts, each with its default value.
pub fn str_flag_entries(cmd: CMD) -> (r: Vec<(&'static str, Option<&'static str>)>)
    ensures
        r@.len() == str_flag_table(cmd).len(),
        forall|i: int|
            0 <= i < r@.len() ==> r@[i].0@ == str_flag_table(cmd)[i].0 && opt_str_view(r@[i].1)
                == str_flag_table(cmd)[i].1,
{
    match cmd {
        CMD::ENCRYPT => vec![("--name", None), ("--location", None)],
        CMD::DECRYPT => vec![("--location", None)],
        CMD::HELP => Vec::new(),
    }
}

/// Whether `f` is a boolean flag of `cmd`.
pub fn is_valid_bool_flag(f: &str, cmd: CMD) -> (r: bool)
    ensures
        r == bool_flag_names(cmd).contains(f@),
{
    let names = allowed_bool_flags(cmd);
    let mut i: usize = 0;
    while i < names.len()
        invariant
            i <= names@.len(),
            names@.len() == bool_flag_names(cmd).len(),
            forall|j: int| 0 <= j < names@.len() ==> names@[j]@ == bool_flag_names(cmd)[j],
            forall|j: int| 0 <= j < i ==> bool_flag_names(cmd)[j] != f@,
        decreases names@.len() - i,
    {
        if str_eq(names[i], f) {
            assert(bool_flag_names(cmd)[i as int] == f@);
            return true;
        }
        i = i + 1;
    }
    false
}

/// Whether `f` is a flag with a value of `cmd`.
pub fn is_valid_str_flag(f: &str, cmd: CMD) -> (r: bool)
    ensures
        r == is_str_flag(cmd, f@),
{
    let table = str_flag_entries(cmd);
    let mut i: usize = 0;
    while i < table.len()
        invariant
            i <= table@.len(),
            table@.len() == str_flag_table(cmd).len(),
            forall|j: int| 0 <= j < table@.len() ==> table@[j].0@ == str_flag_table(cmd)[j].0,
            forall|j: int| 0 <= j < i ==> str_flag_table(cmd)[j].0 != f@,
        decreases table@.len() - i,
    {
        if str_eq(table[i].0, f) {
            assert(str_flag_table(cmd)[i as int].0 == f@);
            return true;
        }
        i = i + 1;
    }
    false
}

/// The mathematical value of [`Flags`]: the command and the two maps from
/// flag names to values.
#[verifier::ext_equal]
pub struct FlagsModel {
    pub cmd: CMD,
    pub bools: Map<Seq<char>, bool>,
    pub strs: Map<Seq<char>, Seq<char>>,
}

impl FlagsModel {
    /// The flags of a command before any was given: each boolean flag of the
    /// command is false, and no flag with a value is set.
    pub open spec fn initial(cmd: CMD) -> FlagsModel {
        FlagsModel {
            cmd,
            bools: Map::new(|k: Seq<char>| bool_flag_names(cmd).contains(k), |k: Seq<char>| false),
            strs: Map::empty(),
        }
    }

    /// The boolean flags are exactly those of the command, and every flag with
    /// a value that is set belongs to the command.
    pub open spec fn valid(self) -> bool {
        &&& forall|k: Seq<char>|
            #[trigger] self.bools.contains_key(k) <==> bool_flag_names(self.cmd).contains(k)
        &&& forall|k: Seq<char>| #[trigger] self.strs.contains_key(k) ==> is_str_flag(self.cmd, k)
    }

    /// Setting a boolean flag: refused for a flag that the command does not
    /// take; otherwise the value is stored, and the call reports a duplicate
    /// when the flag was already true.
    pub open spec fn set_bool(self, k: Seq<char>, v: bool) -> (Result<(), CliErrorView>, FlagsModel) {
        if !self.bools.contains_key(k) {
            (Err(CliErrorView::FlagNotAllowed(k, self.cmd)), self)
        } else {
            (
                if self.bools[k] { Err(CliErrorView::DuplicateFlag(k)) } else { Ok(()) },
                FlagsModel { bools: self.bools.insert(k, v), ..self },
            )
        }
    }

    /// Setting a flag with a value: refused for a flag that the command does
    /// not take; otherwise the value is stored, and the call reports a
    /// duplicate when the flag was already set.
    pub open spec fn set_str(self, k: Seq<char>, v: Seq<char>) -> (Result<(), CliErrorView>, FlagsModel) {
        if !is_str_flag(self.cmd, k) {
            (Err(CliErrorView::FlagNotAllowed(k, self.cmd)), self)
        } else {
            (
                if self.strs.contains_key(k) { Err(CliErrorView::DuplicateFlag(k)) } else { Ok(()) },
                FlagsModel { strs: self.strs.insert(k, v), ..self },
            )
        }
    }

    /// Walking the table of flags with a value from entry `i` on: a missing
    /// flag with a default gets it, and the first missing mandatory flag
    /// stops the walk with an error.
    pub open spec fn check_from(self, i: int) -> (Result<(), CliErrorView>, FlagsModel)
        decreases str_flag_table(self.cmd).len() - i,
    {
        let table = str_flag_table(self.cmd);
        if i < 0 || i >= table.len() {
            (Ok(()), self)
        } else {
            let k = table[i].0;
            match table[i].1 {
                Some(d) => if !self.strs.contains_key(k) {
                    FlagsModel { strs: self.strs.insert(k, d), ..self }.check_from(i + 1)
                } else {
                    self.check_from(i + 1)
                },
                None => if !self.strs.contains_key(k) {
                    (Err(CliErrorView::MissingMandatoryFlag(k)), self)
                } else {
                    self.check_from(i + 1)
                },
            }
        }
    }

    /// Checking the flags: every mandatory flag must be set, and flags with
    /// a default get it when they are missing.
    pub open spec fn check(self) -> (Result<(), CliErrorView>, FlagsModel) {
        self.check_from(0)
    }
}

/// The flags given to a command, as names borrowed from the command line
/// and their values.
#[derive(Clone, Debug, PartialEq, Eq)]
pub struct Flags<'k> {
    cmd: CMD,
    bool_flags: Vec<(&'k str, bool)>,
    str_flags: Vec<(&'k str, String)>,
}

impl<'k> Flags<'k> {
    /// The boolean entries, read as names and values.
    pub closed spec fn bool_entries(&self) -> Seq<(Seq<char>, bool)> {
        self.bool_flags@.map_values(|e: (&'k str, bool)| (e.0@, e.1))
    }

    /// The entries with a value, read as names and values.
    pub closed spec fn str_entries(&self) -> Seq<(Seq<char>, Seq<char>)> {
        self.str_flags@.map_values(|e: (&'k str, String)| (e.0@, e.1@))
    }

    /// No flag is stored twice, and the flags fit the command.
    pub closed spec fn wf(&self) -> bool {
        &&& distinct_keys(self.bool_entries())
        &&& distinct_keys(self.str_entries())
        &&& self@.valid()
    }

    /// Well-formed flags fit their command: their boolean flags are exactly
    /// those of the command, and every flag with a value that is set is one
    /// of the command's.
    pub proof fn lemma_wf_valid(&self)
        requires
            self.wf(),
        ensures
            self@.valid(),
    {
    }
}

impl<'k> View for Flags<'k> {
    type V = FlagsModel;

    closed spec fn view(&self) -> FlagsModel {
        FlagsModel {
            cmd: self.cmd,
            bools: assoc_map(self.bool_entries()),
            strs: assoc_map(self.str_entries()),
        }
    }
}


impl<'k> Flags<'k> {
    /// The index of the boolean entry named `k`, if there is one.
    fn find_bool(&self, k: &str) -> (r: Option<usize>)
        ensures
            match r {
                Some(i) => i < self.bool_entries().len() && self.bool_entries()[i as int].0 == k@,
                None => forall|j: int|
                    0 <= j < self.bool_entries().len() ==> self.bool_entries()[j].0 != k@,
            },
    {
        let mut i: usize = 0;
        while i < self.bool_flags.len()
            invariant
                i <= self.bool_flags@.len(),
                self.bool_entries().len() == self.bool_flags@.len(),
                forall|j: int| 0 <= j < i ==> self.bool_entries()[j].0 != k@,
            decreases self.bool_flags@.len() - i,
        {
            if str_eq(self.bool_flags[i].0, k) {
                return Some(i);
            }
            i = i + 1;
        }
        None
    }

    /// The index of the entry with a value named `k`, if there is one.
    fn find_str(&self, k: &str) -> (r: Option<usize>)
        ensures
            match r {
                Some(i) => i < self.str_entries().len() && self.str_entries()[i as int].0 == k@,
                None => forall|j: int|
                    0 <= j < self.str_entries().len() ==> self.str_entries()[j].0 != k@,
            },
    {
        let mut i: usize = 0;
        while i < self.str_flags.len()
            invariant
                i <= self.str_flags@.len(),
                self.str_entries().len() == self.str_flags@.len(),
                forall|j: int| 0 <= j < i ==> self.str_entries()[j].0 != k@,
            decreases self.str_flags@.len() - i,
        {
            if str_eq(self.str_flags[i].0, k) {
                return Some(i);
            }
            i = i + 1;
        }
        None
    }

    /// The flags of `cmd` before any was given: every boolean flag of the
    /// command is false and no flag with a value is set.
    pub fn new(cmd: CMD) -> (r: Self)
        ensures
            r.wf(),
            r@ == FlagsModel::initial(cmd),
    {
        let names = allowed_bool_flags(cmd);
        let mut bool_flags: Vec<(&'k str, bool)> = Vec::new();
        let mut i: usize = 0;
        while i < names.len()
            invariant
                i <= names@.len(),
                names@.len() == bool_flag_names(cmd).len(),
                forall|j: int| 0 <= j < names@.len() ==> names@[j]@ == bool_flag_names(cmd)[j],
                bool_flags@.len() == i,
                forall|j: int| 0 <= j < i ==> bool_flags@[j].0@ == names@[j]@ && !bool_flags@[j].1,
            decreases names@.len() - i,
        {
            bool_flags.push((names[i], false));
            i = i + 1;
        }
        let r = Flags { cmd, bool_flags, str_flags: Vec::new() };
        proof {
            let e = r.bool_entries();
            assert(bool_flag_names(cmd).len() <= 1);
            assert(distinct_keys(e));
            assert(r.str_entries() =~= Seq::<(Seq<char>, Seq<char>)>::empty());
            assert(assoc_map(r.str_entries()) =~= Map::<Seq<char>, Seq<char>>::empty());
            assert forall|k: Seq<char>|
                #[trigger] assoc_map(e).contains_key(k) == bool_flag_names(cmd).contains(k) by {
                lemma_assoc_contains(e, k);
                assert(e.len() == bool_flag_names(cmd).len());
                assert(forall|j: int| 0 <= j < e.len() ==> e[j].0 == bool_flag_names(cmd)[j]);
                if bool_flag_names(cmd).contains(k) {
                    let j = choose|j: int| 0 <= j < bool_flag_names(cmd).len() && bool_flag_names(cmd)[j] == k;
                    assert(e[j].0 == k);
                }
                if assoc_map(e).contains_key(k) {
                    let j = choose|j: int| 0 <= j < e.len() && e[j].0 == k;
                    assert(bool_flag_names(cmd)[j] == k);
                }
            }
            assert forall|k: Seq<char>| #[trigger] assoc_map(e).contains_key(k) implies !assoc_map(e)[k] by {
                lemma_assoc_contains(e, k);
                let j = choose|j: int| 0 <= j < e.len() && e[j].0 == k;
                lemma_assoc_value(e, j);
            }
            assert(assoc_map(e) =~= FlagsModel::initial(cmd).bools);
        }
        r
    }

    /// The value of the boolean flag `k`, if the command has that flag.
    pub fn get_bool_flag(&self, k: &str) -> (r: Option<bool>)
        requires
            self.wf(),
        ensures
            r == (if self@.bools.contains_key(k@) { Some(self@.bools[k@]) } else { None::<bool> }),
            r is Some <==> bool_flag_names(self@.cmd).contains(k@),
    {
        proof {
            lemma_assoc_contains(self.bool_entries(), k@);
            assert(self@.bools.contains_key(k@) == bool_flag_names(self@.cmd).contains(k@));
        }
        match self.find_bool(k) {
            Some(i) => {
                proof {
                    lemma_assoc_value(self.bool_entries(), i as int);
                }
                Some(self.bool_flags[i].1)
            },
            None => None,
        }
    }

    /// The value of the flag `k`, if it was set.
    pub fn get_str_flag(&self, k: &str) -> (r: Option<&String>)
        requires
            self.wf(),
        ensures
            match r {
                Some(v) => self@.strs.contains_key(k@) && v@ == self@.strs[k@],
                None => !self@.strs.contains_key(k@),
            },
            r is Some ==> is_str_flag(self@.cmd, k@),
    {
        proof {
            lemma_assoc_contains(self.str_entries(), k@);
        }
        match self.find_str(k) {
            Some(i) => {
                proof {
                    lemma_assoc_value(self.str_entries(), i as int);
                }
                Some(&self.str_flags[i].1)
            },
            None => None,
        }
    }

    /// Sets the boolean flag `k` to `v`. Fails when the command has no such
    /// flag (nothing changes then), and reports a duplicate when the flag
    /// was already true (the value is stored all the same).
    pub fn set_bool_flag(&mut self, k: &'k str, v: bool) -> (r: Result<(), CliError>)
        requires
            old(self).wf(),
        ensures
            final(self).wf(),
            unit_result_view(r) == old(self)@.set_bool(k@, v).0,
            final(self)@ == old(self)@.set_bool(k@, v).1,
    {
        proof {
            lemma_assoc_contains(self.bool_entries(), k@);
        }
        match self.find_bool(k) {
            None => Err(CliError::FlagNotAllowed { flag: k.to_owned(), cmd: self.cmd }),
            Some(i) => {
                let ghost old_entries = self.bool_entries();
                let ghost old_model = self@;
                proof {
                    lemma_assoc_value(old_entries, i as int);
                    lemma_assoc_update(old_entries, i as int, v);
                }
                let key = self.bool_flags[i].0;
                let previous = self.bool_flags[i].1;
                self.bool_flags.set(i, (key, v));
                assert(self.bool_entries() =~= old_entries.update(i as int, (old_entries[i as int].0, v)));
                assert(self@ =~= old_model.set_bool(k@, v).1);
                if previous {
                    Err(CliError::DuplicateFlag { flag: k.to_owned() })
                } else {
                    Ok(())
                }
            },
        }
    }

    /// Sets the flag `k` to `v`. Fails when the command has no such flag
    /// (nothing changes then), and reports a duplicate when the flag was
    /// already set (the new value is stored all the same).
    pub fn set_str_flag(&mut self, k: &'k str, v: String) -> (r: Result<(), CliError>)
        requires
            old(self).wf(),
        ensures
            final(self).wf(),
            unit_result_view(r) == old(self)@.set_str(k@, v@).0,
            final(self)@ == old(self)@.set_str(k@, v@).1,
    {
        if !is_valid_str_flag(k, self.cmd) {
            return Err(CliError::FlagNotAllowed { flag: k.to_owned(), cmd: self.cmd });
        }
        proof {
            lemma_assoc_contains(self.str_entries(), k@);
        }
        let ghost old_entries = self.str_entries();
        let ghost old_model = self@;
        let ghost vv = v@;
        match self.find_str(k) {
            Some(i) => {
                proof {
                    lemma_assoc_update(old_entries, i as int, vv);
                }
                let key = self.str_flags[i].0;
                self.str_flags.set(i, (key, v));
                assert(self.str_entries() =~= old_entries.update(i as int, (old_entries[i as int].0, vv)));
                assert(self@ =~= old_model.set_str(k@, vv).1);
                Err(CliError::DuplicateFlag { flag: k.to_owned() })
            },
            None => {
                proof {
                    lemma_assoc_push(old_entries, k@, vv);
                }
                self.str_flags.push((k, v));
                assert(self.str_entries() =~= old_entries.push((k@, vv)));
                assert(self@ =~= old_model.set_str(k@, vv).1);
                Ok(())
            },
        }
    }

    /// Checks that every mandatory flag of the command is set, and gives the
    /// missing flags that have a default their default value. Fails on the
    /// first missing mandatory flag in table order.
    pub fn check_flags(&mut self) -> (r: Result<(), CliError>)
        requires
            old(self).wf(),
        ensures
            final(self).wf(),
            unit_result_view(r) == old(self)@.check().0,
            final(self)@ == old(self)@.check().1,
    {
        let table = str_flag_entries(self.cmd);
        let ghost cmd = self.cmd;
        let mut i: usize = 0;
        while i < table.len()
            invariant
                i <= table@.len(),
                self.cmd == cmd,
                cmd == old(self)@.cmd,
                table@.len() == str_flag_table(cmd).len(),
                forall|j: int|
                    0 <= j < table@.len() ==> table@[j].0@ == str_flag_table(cmd)[j].0 && opt_str_view(
                        table@[j].1,
                    ) == str_flag_table(cmd)[j].1,
                self.wf(),
                self@.check_from(i as int) == old(self)@.check(),
            decreases table@.len() - i,
        {
            let (flag, default) = table[i];
            proof {
                lemma_assoc_contains(self.str_entries(), flag@);
            }
            match default {
                Some(d) => {
                    if self.find_str(flag).is_none() {
                        let ghost old_entries = self.str_entries();
                        let ghost old_model = self@;
                        let value = d.to_owned();
                        proof {
                            lemma_assoc_push(old_entries, flag@, value@);
                        }
                        self.str_flags.push((flag, value));
                        assert(self.str_entries() =~= old_entries.push((flag@, value@)));
                        assert(self@ =~= FlagsModel {
                            strs: old_model.strs.insert(flag@, value@),
                            ..old_model
                        });
                        assert(is_str_flag(cmd, flag@));
                    }
                },
                None => {
                    if self.find_str(flag).is_none() {
                        return Err(CliError::MissingMandatoryFlag { flag: flag.to_owned() });
                    }
                },
            }
            i = i + 1;
        }
        Ok(())
    }
}


/// What a walk of the table from entry `i` on does: the flags that were set
/// keep their values; when it succeeds every flag of the table from `i` on is
/// set; when it fails, it names a mandatory flag of the table that is not set.
pub proof fn lemma_check_from(m: FlagsModel, i: int)
    requires
        0 <= i,
    ensures
        m.check_from(i).1.cmd == m.cmd,
        forall|k: Seq<char>|
            #[trigger] m.strs.contains_key(k) ==> m.check_from(i).1.strs.contains_key(k)
                && m.check_from(i).1.strs[k] == m.strs[k],
        m.check_from(i).0 is Ok ==> forall|j: int|
            i <= j < str_flag_table(m.cmd).len() ==> m.check_from(i).1.strs.contains_key(
                #[trigger] str_flag_table(m.cmd)[j].0,
            ),
        m.check_from(i).0 matches Err(e) ==> exists|j: int|
            0 <= i <= j < str_flag_table(m.cmd).len() && (#[trigger] str_flag_table(m.cmd)[j]).1 is None
                && e == CliErrorView::MissingMandatoryFlag(str_flag_table(m.cmd)[j].0)
                && !m.strs.contains_key(str_flag_table(m.cmd)[j].0),
    decreases str_flag_table(m.cmd).len() - i,
{
    let table = str_flag_table(m.cmd);
    if 0 <= i < table.len() {
        let k = table[i].0;
        match table[i].1 {
            Some(d) => {
                if !m.strs.contains_key(k) {
                    let m2 = FlagsModel { strs: m.strs.insert(k, d), ..m };
                    lemma_check_from(m2, i + 1);
                } else {
                    lemma_check_from(m, i + 1);
                }
            },
            None => {
                if m.strs.contains_key(k) {
                    lemma_check_from(m, i + 1);
                }
            },
        }
    }
}

/// Checking the flags succeeds exactly when afterwards every flag of the
/// command's table is set; flags that were set keep their values, and a
/// failure names a mandatory flag of the table that was not set.
pub proof fn lemma_check_flags(m: FlagsModel)
    ensures
        m.check().1.cmd == m.cmd,
        forall|k: Seq<char>|
            #[trigger] m.strs.contains_key(k) ==> m.check().1.strs.contains_key(k) && m.check().1.strs[k]
                == m.strs[k],
        m.check().0 is Ok ==> forall|j: int|
            0 <= j < str_flag_table(m.cmd).len() ==> m.check().1.strs.contains_key(
                #[trigger] str_flag_table(m.cmd)[j].0,
            ),
        m.check().0 matches Err(e) ==> exists|j: int|
            0 <= j < str_flag_table(m.cmd).len() && (#[trigger] str_flag_table(m.cmd)[j]).1 is None
                && e == CliErrorView::MissingMandatoryFlag(str_flag_table(m.cmd)[j].0)
                && !m.strs.contains_key(str_flag_table(m.cmd)[j].0),
{
    lemma_check_from(m, 0);
}


/// A flag with a value that was set reads back as set, the other flags
/// keep their values, and setting it once more is reported as a duplicate.
pub proof fn lemma_str_flag_read_after_write(m: FlagsModel, k: Seq<char>, v: Seq<char>, w: Seq<char>)
    requires
        is_str_flag(m.cmd, k),
    ensures
        m.set_str(k, v).1.strs.contains_key(k),
        m.set_str(k, v).1.strs[k] == v,
        forall|j: Seq<char>|
            j != k ==> (#[trigger] m.set_str(k, v).1.strs.contains_key(j) == m.strs.contains_key(j) && (
            m.strs.contains_key(j) ==> m.set_str(k, v).1.strs[j] == m.strs[j])),
        m.set_str(k, v).1.set_str(k, w).0 == Err::<(), CliErrorView>(CliErrorView::DuplicateFlag(k)),
        m.set_str(k, v).1.set_str(k, w).1.strs[k] == w,
{
}

/// A boolean flag of the command reads back with the value it was set to,
/// and setting it once it is true is reported as a duplicate.
pub proof fn lemma_bool_flag_read_after_write(m: FlagsModel, k: Seq<char>, v: bool)
    requires
        m.bools.contains_key(k),
    ensures
        m.set_bool(k, v).1.bools.contains_key(k),
        m.set_bool(k, v).1.bools[k] == v,
        m.set_bool(k, true).1.set_bool(k, v).0 == Err::<(), CliErrorView>(CliErrorView::DuplicateFlag(k)),
{
}

/// A flag that the command does not take is refused, and nothing changes.
pub proof fn lemma_refused_flag_changes_nothing(m: FlagsModel, k: Seq<char>, v: Seq<char>, b: bool)
    ensures
        !is_str_flag(m.cmd, k) ==> m.set_str(k, v) == (
        Err::<(), CliErrorView>(CliErrorView::FlagNotAllowed(k, m.cmd)),
        m,
        ),
        !m.bools.contains_key(k) ==> m.set_bool(k, b) == (
        Err::<(), CliErrorView>(CliErrorView::FlagNotAllowed(k, m.cmd)),
        m,
        ),
{
}

/// Every operation on flags keeps them fitting their command.
pub proof fn lemma_operations_keep_valid(m: FlagsModel, k: Seq<char>, v: Seq<char>, b: bool)
    requires
        m.valid(),
    ensures
        m.set_str(k, v).1.valid(),
        m.set_bool(k, b).1.valid(),
        m.check().1.valid(),
        FlagsModel::initial(m.cmd).valid(),
{
    lemma_check_keeps_valid(m, 0);
}

/// Walking the table keeps the flags fitting their command.
proof fn lemma_check_keeps_valid(m: FlagsModel, i: int)
    requires
        m.valid(),
    ensures
        m.check_from(i).1.valid(),
    decreases str_flag_table(m.cmd).len() - i,
{
    let table = str_flag_table(m.cmd);
    if 0 <= i < table.len() {
        let k = table[i].0;
        match table[i].1 {
            Some(d) => {
                if !m.strs.contains_key(k) {
                    let m2 = FlagsModel { strs: m.strs.insert(k, d), ..m };
                    assert(is_str_flag(m.cmd, k));
                    lemma_check_keeps_valid(m2, i + 1);
                } else {
                    lemma_check_keeps_valid(m, i + 1);
                }
            },
            None => {
                if m.strs.contains_key(k) {
                    lemma_check_keeps_valid(m, i + 1);
                }
            },
        }
    }
}

} // verus!
