//! The in-memory configuration table that tells the library how to
//! reach each local service.
//!
//! A configuration is a set of named sections, each a set of
//! key/value entries, all plain strings.  Reading configuration files
//! from disk, and the `$`-expansion of values against the process
//! environment, are left to the surrounding program; the library
//! consumes the table only through the typed lookups below.

use vstd::prelude::*;

use crate::time::{spec_relative_units, Relative};
use crate::util::{
    spec_parse_quantity, spec_parse_u64, parse_u64_chars, str_chars, str_eq,
    ParseQuantityWithUnitsError, QuantityOutcome,
};

verus! {

/// First value bound to `name` in an association list, if any.
pub open spec fn spec_assoc<T>(s: Seq<(String, T)>, name: Seq<char>) -> Option<T>
    decreases s.len(),
{
    if s.len() == 0 {
        None
    } else if s[0].0@ == name {
        Some(s[0].1)
    } else {
        spec_assoc(s.drop_first(), name)
    }
}

/// No two entries of the list share a name.
pub open spec fn spec_names_unique<T>(s: Seq<(String, T)>) -> bool {
    forall|j1: int, j2: int|
        0 <= j1 < j2 < s.len() ==> (#[trigger] s[j1]).0@ != (#[trigger] s[j2]).0@
}

/// Looking up in a suffix agrees with the whole list when the skipped
/// prefix holds no entry under `name`.
proof fn lemma_assoc_skip<T>(s: Seq<(String, T)>, name: Seq<char>, i: int)
    requires
        0 <= i <= s.len(),
        forall|j: int| 0 <= j < i ==> (#[trigger] s[j]).0@ != name,
    ensures
        spec_assoc(s, name) == spec_assoc(s.skip(i), name),
    decreases i,
{
    if i > 0 {
        assert(s.drop_first() =~= s.skip(1));
        lemma_assoc_skip(s.drop_first(), name, i - 1);
        assert(s.drop_first().skip(i - 1) =~= s.skip(i));
    } else {
        assert(s.skip(0) =~= s);
    }
}

/// An entry at a position whose predecessors all bear other names is
/// the one the lookup finds.
proof fn lemma_assoc_at<T>(s: Seq<(String, T)>, name: Seq<char>, i: int)
    requires
        0 <= i < s.len(),
        forall|j: int| 0 <= j < i ==> (#[trigger] s[j]).0@ != name,
        s[i].0@ == name,
    ensures
        spec_assoc(s, name) == Some(s[i].1),
{
    lemma_assoc_skip(s, name, i);
    assert(s.skip(i)[0] == s[i]);
}

/// A name that no entry bears is not found.
proof fn lemma_assoc_none<T>(s: Seq<(String, T)>, name: Seq<char>)
    requires
        forall|j: int| 0 <= j < s.len() ==> (#[trigger] s[j]).0@ != name,
    ensures
        spec_assoc(s, name) is None,
{
    lemma_assoc_skip(s, name, s.len() as int);
}

/// A found name is borne by some entry.
proof fn lemma_assoc_some_exists<T>(s: Seq<(String, T)>, name: Seq<char>)
    requires
        spec_assoc(s, name) is Some,
    ensures
        exists|j: int| 0 <= j < s.len() && (#[trigger] s[j]).0@ == name,
    decreases s.len(),
{
    if s.len() > 0 && s[0].0@ != name {
        lemma_assoc_some_exists(s.drop_first(), name);
        let j = choose|j: int|
            0 <= j < s.drop_first().len() && (#[trigger] s.drop_first()[j]).0@ == name;
        assert(s[j + 1].0@ == name);
    }
}

/// Replacing the value of the entry the lookup finds changes only
/// that binding.
proof fn lemma_assoc_update<T>(s: Seq<(String, T)>, i: int, p: (String, T), name: Seq<char>)
    requires
        0 <= i < s.len(),
        forall|j: int| 0 <= j < i ==> (#[trigger] s[j]).0@ != p.0@,
        s[i].0@ == p.0@,
    ensures
        spec_assoc(s.update(i, p), name) == (if name == p.0@ {
            Some(p.1)
        } else {
            spec_assoc(s, name)
        }),
    decreases i,
{
    let u = s.update(i, p);
    if i == 0 {
        if name != p.0@ {
            assert(u.drop_first() =~= s.drop_first());
        }
    } else {
        assert(u.drop_first() =~= s.drop_first().update(i - 1, p));
        lemma_assoc_update(s.drop_first(), i - 1, p, name);
    }
}

/// Appending an entry under a fresh name changes only that binding.
proof fn lemma_assoc_push<T>(s: Seq<(String, T)>, p: (String, T), name: Seq<char>)
    requires
        forall|j: int| 0 <= j < s.len() ==> (#[trigger] s[j]).0@ != p.0@,
    ensures
        spec_assoc(s.push(p), name) == (if name == p.0@ {
            Some(p.1)
        } else {
            spec_assoc(s, name)
        }),
{
    if name == p.0@ {
        lemma_assoc_at(s.push(p), name, s.len() as int);
    } else if spec_assoc(s, name) is Some {
        lemma_assoc_some_exists(s, name);
        let j = choose|j: int| 0 <= j < s.len() && (#[trigger] s[j]).0@ == name;
        let j0 = choose|j0: int|
            0 <= j0 < s.len() && (#[trigger] s[j0]).0@ == name && forall|j1: int|
                0 <= j1 < j0 ==> (#[trigger] s[j1]).0@ != name;
        lemma_assoc_first_witness(s, name);
        lemma_assoc_at(s, name, j0);
        lemma_assoc_at(s.push(p), name, j0);
    } else {
        lemma_assoc_some_none_helper(s, name);
        lemma_assoc_none(s.push(p), name);
    }
}

/// A found name has a first occurrence.
proof fn lemma_assoc_first_witness<T>(s: Seq<(String, T)>, name: Seq<char>)
    requires
        exists|j: int| 0 <= j < s.len() && (#[trigger] s[j]).0@ == name,
    ensures
        exists|j0: int|
            0 <= j0 < s.len() && (#[trigger] s[j0]).0@ == name && forall|j1: int|
                0 <= j1 < j0 ==> (#[trigger] s[j1]).0@ != name,
    decreases s.len(),
{
    if s[0].0@ == name {
        assert(0 <= 0 < s.len() && s[0].0@ == name && forall|j1: int|
            0 <= j1 < 0 ==> (#[trigger] s[j1]).0@ != name);
    } else {
        let j = choose|j: int| 0 <= j < s.len() && (#[trigger] s[j]).0@ == name;
        assert(s.drop_first()[j - 1].0@ == name);
        lemma_assoc_first_witness(s.drop_first(), name);
        let j0 = choose|j0: int|
            0 <= j0 < s.drop_first().len() && (#[trigger] s.drop_first()[j0]).0@ == name
                && forall|j1: int|
                0 <= j1 < j0 ==> (#[trigger] s.drop_first()[j1]).0@ != name;
        assert(s[j0 + 1].0@ == name);
        assert(forall|j1: int|
            1 <= j1 < j0 + 1 ==> (#[trigger] s[j1]).0@ == s.drop_first()[j1 - 1].0@);
        assert(forall|j1: int| 0 <= j1 < j0 + 1 ==> (#[trigger] s[j1]).0@ != name);
    }
}

/// An unfound name is borne by no entry.
proof fn lemma_assoc_some_none_helper<T>(s: Seq<(String, T)>, name: Seq<char>)
    requires
        spec_assoc(s, name) is None,
    ensures
        forall|j: int| 0 <= j < s.len() ==> (#[trigger] s[j]).0@ != name,
    decreases s.len(),
{
    if s.len() > 0 {
        lemma_assoc_some_none_helper(s.drop_first(), name);
        assert forall|j: int| 0 <= j < s.len() implies (#[trigger] s[j]).0@ != name by {
            if j > 0 {
                assert(s.drop_first()[j - 1] == s[j]);
            }
        }
    }
}

/// The value bound to `key` in section `section` of a section table.
pub open spec fn spec_value_of(
    d: Seq<(String, Vec<(String, String)>)>,
    section: Seq<char>,
    key: Seq<char>,
) -> Option<Seq<char>> {
    match spec_assoc(d, section) {
        None => None,
        Some(sec) => match spec_assoc(sec@, key) {
            None => None,
            Some(v) => Some(v@),
        },
    }
}

/// Whether some entry before position `i` of the table bears name `s`.
pub open spec fn spec_section_before(
    d: Seq<(String, Vec<(String, String)>)>,
    s: Seq<char>,
    i: int,
) -> bool {
    exists|j: int| 0 <= j < i && (#[trigger] d[j]).0@ == s
}

/// Error returned by `Cfg::get_int`.
#[derive(Debug, PartialEq, Eq)]
pub enum CfgGetIntError {
    /// The configuration has no section of that name.
    NoSection,
    /// The section has no entry under that key.
    NoKey,
    /// The value is not an unsigned 64-bit decimal number.
    Parse,
}

/// Error returned by `Cfg::get_filename`.
#[derive(Debug, PartialEq, Eq)]
pub enum CfgGetFilenameError {
    /// The configuration has no section of that name.
    NoSection,
    /// The section has no entry under that key.
    NoKey,
}

/// Error returned by `Cfg::get_relative_time`.
#[derive(Debug, PartialEq, Eq)]
pub enum CfgGetRelativeTimeError {
    /// The configuration has no section of that name.
    NoSection,
    /// The section has no entry under that key.
    NoKey,
    /// The value is not a valid quantity of time.
    Parse { cause: ParseQuantityWithUnitsError },
}

/// A configuration: named sections of key/value entries.
pub struct Cfg {
    data: Vec<(String, Vec<(String, String)>)>,
}

impl Cfg {
    /// Sections bear distinct names, and within a section the keys
    /// are distinct.  Everything the library hands out satisfies
    /// this.
    pub closed spec fn wf(&self) -> bool {
        &&& spec_names_unique(self.data@)
        &&& forall|i: int|
            0 <= i < self.data@.len() ==> spec_names_unique((#[trigger] self.data@[i]).1@)
    }

    /// The value bound to `key` in section `section`, if any.
    pub closed spec fn spec_value(&self, section: Seq<char>, key: Seq<char>) -> Option<Seq<char>> {
        match spec_assoc(self.data@, section) {
            None => None,
            Some(sec) => match spec_assoc(sec@, key) {
                None => None,
                Some(v) => Some(v@),
            },
        }
    }

    /// Whether a section of that name exists.
    pub closed spec fn spec_has_section(&self, section: Seq<char>) -> bool {
        spec_assoc(self.data@, section) is Some
    }

    /// A configuration with no sections at all.
    pub fn empty() -> (r: Cfg)
        ensures
            r.wf(),
            forall|s: Seq<char>, k: Seq<char>| #[trigger] r.spec_value(s, k) is None,
            forall|s: Seq<char>| !(#[trigger] r.spec_has_section(s)),
    {
        Cfg { data: Vec::new() }
    }

    /// The position of the section named `section@`, if one exists.
    fn find_section(&self, section: &str) -> (r: Option<usize>)
        ensures
            match r {
                Some(i) => {
                    &&& i < self.data@.len()
                    &&& self.data@[i as int].0@ == section@
                    &&& spec_assoc(self.data@, section@) == Some(self.data@[i as int].1)
                    &&& forall|j: int| 0 <= j < i ==> (#[trigger] self.data@[j]).0@ != section@
                },
                None => {
                    &&& !self.spec_has_section(section@)
                    &&& forall|j: int|
                        0 <= j < self.data@.len() ==> (#[trigger] self.data@[j]).0@ != section@
                },
            },
    {
        let mut i: usize = 0;
        while i < self.data.len()
            invariant
                i <= self.data@.len(),
                forall|j: int| 0 <= j < i ==> (#[trigger] self.data@[j]).0@ != section@,
            decreases self.data@.len() - i,
        {
            if str_eq(self.data[i].0.as_str(), section) {
                proof {
                    lemma_assoc_at(self.data@, section@, i as int);
                }
                return Some(i);
            }
            i = i + 1;
        }
        proof {
            lemma_assoc_none(self.data@, section@);
        }
        None
    }

    /// The position of `key` inside section number `si`, if present.
    fn find_entry(&self, si: usize, key: &str) -> (r: Option<usize>)
        requires
            si < self.data@.len(),
        ensures
            match r {
                Some(ki) => {
                    &&& ki < self.data@[si as int].1@.len()
                    &&& self.data@[si as int].1@[ki as int].0@ == key@
                    &&& spec_assoc(self.data@[si as int].1@, key@) == Some(
                        self.data@[si as int].1@[ki as int].1,
                    )
                    &&& forall|j: int|
                        0 <= j < ki ==> (#[trigger] self.data@[si as int].1@[j]).0@ != key@
                },
                None => {
                    &&& spec_assoc(self.data@[si as int].1@, key@) is None
                    &&& forall|j: int|
                        0 <= j < self.data@[si as int].1@.len() ==> (#[trigger] self.data@[si as int].1@[j]).0@
                            != key@
                },
            },
    {
        let sec = &self.data[si].1;
        let mut i: usize = 0;
        while i < sec.len()
            invariant
                i <= sec@.len(),
                sec == self.data@[si as int].1,
                forall|j: int| 0 <= j < i ==> (#[trigger] sec@[j]).0@ != key@,
            decreases sec@.len() - i,
        {
            if str_eq(sec[i].0.as_str(), key) {
                proof {
                    lemma_assoc_at(sec@, key@, i as int);
                }
                return Some(i);
            }
            i = i + 1;
        }
        proof {
            lemma_assoc_none(sec@, key@);
        }
        None
    }

    /// The value bound to `key` in section `section`, borrowed.
    fn find_value<'a>(&'a self, section: &str, key: &str) -> (r: Option<&'a String>)
        ensures
            match r {
                Some(v) => self.spec_value(section@, key@) == Some(v@),
                None => self.spec_value(section@, key@) is None,
            },
    {
        let si = match self.find_section(section) {
            Some(si) => si,
            None => {
                return None;
            },
        };
        match self.find_entry(si, key) {
            Some(ki) => Some(&self.data[si].1[ki].1),
            None => None,
        }
    }

    /// Whether section `section` holds an entry under `key`.
    pub fn contains(&self, section: &str, key: &str) -> (r: bool)
        ensures
            r == (self.spec_value(section@, key@) is Some),
    {
        self.find_value(section, key).is_some()
    }

    /// A copy of the value bound to `key` in section `section`.
    pub fn get_string(&self, section: &str, key: &str) -> (r: Option<String>)
        ensures
            match r {
                Some(v) => self.spec_value(section@, key@) == Some(v@),
                None => self.spec_value(section@, key@) is None,
            },
    {
        match self.find_value(section, key) {
            Some(v) => Some(v.clone()),
            None => None,
        }
    }

    /// The value bound to `key` in `section`, read as an unsigned
    /// decimal number.  Returns `NoSection` or `NoKey` when the entry
    /// is missing, and `Parse` when the value is not a `u64`.
    pub fn get_int(&self, section: &str, key: &str) -> (r: Result<u64, CfgGetIntError>)
        ensures
            match r {
                Ok(v) => {
                    &&& self.spec_value(section@, key@) is Some
                    &&& spec_parse_u64(self.spec_value(section@, key@).unwrap()) == Some(v)
                },
                Err(CfgGetIntError::NoSection) => !self.spec_has_section(section@),
                Err(CfgGetIntError::NoKey) => self.spec_has_section(section@) && self.spec_value(
                    section@,
                    key@,
                ) is None,
                Err(CfgGetIntError::Parse) => {
                    &&& self.spec_value(section@, key@) is Some
                    &&& spec_parse_u64(self.spec_value(section@, key@).unwrap()) is None
                },
            },
    {
        if self.find_section(section).is_none() {
            return Err(CfgGetIntError::NoSection);
        }
        let v = match self.find_value(section, key) {
            Some(v) => v,
            None => {
                return Err(CfgGetIntError::NoKey);
            },
        };
        let chars = str_chars(v.as_str());
        proof {
            assert(chars@.subrange(0, chars@.len() as int) =~= chars@);
        }
        match parse_u64_chars(&chars, 0, chars.len()) {
            Some(x) => Ok(x),
            None => Err(CfgGetIntError::Parse),
        }
    }

    /// The value bound to `key` in `section`, read as a span of time
    /// written with units, `"3 min 10 s"`.
    pub fn get_relative_time(&self, section: &str, key: &str) -> (r: Result<
        Relative,
        CfgGetRelativeTimeError,
    >)
        ensures
            match r {
                Ok(t) => {
                    &&& self.spec_value(section@, key@) is Some
                    &&& spec_parse_quantity(
                        self.spec_value(section@, key@).unwrap(),
                        spec_relative_units(),
                    ) == (QuantityOutcome::Value { total: t.spec_micros() })
                },
                Err(CfgGetRelativeTimeError::NoSection) => !self.spec_has_section(section@),
                Err(CfgGetRelativeTimeError::NoKey) => self.spec_has_section(section@)
                    && self.spec_value(section@, key@) is None,
                Err(CfgGetRelativeTimeError::Parse { cause }) => {
                    &&& self.spec_value(section@, key@) is Some
                    &&& !(spec_parse_quantity(
                        self.spec_value(section@, key@).unwrap(),
                        spec_relative_units(),
                    ) is Value)
                },
            },
    {
        if self.find_section(section).is_none() {
            return Err(CfgGetRelativeTimeError::NoSection);
        }
        let v = match self.find_value(section, key) {
            Some(v) => v,
            None => {
                return Err(CfgGetRelativeTimeError::NoKey);
            },
        };
        match Relative::parse(v.as_str()) {
            Ok(t) => Ok(t),
            Err(e) => Err(CfgGetRelativeTimeError::Parse { cause: e }),
        }
    }

    /// The value bound to `key` in `section`, read as the filesystem
    /// path of the service's listening socket.  Any expansion of
    /// configuration variables inside the value is the caller's
    /// affair; the entry is handed back as stored.
    pub fn get_filename(&self, section: &str, key: &str) -> (r: Result<String, CfgGetFilenameError>)
        ensures
            match r {
                Ok(v) => self.spec_value(section@, key@) == Some(v@),
                Err(CfgGetFilenameError::NoSection) => !self.spec_has_section(section@),
                Err(CfgGetFilenameError::NoKey) => self.spec_has_section(section@)
                    && self.spec_value(section@, key@) is None,
            },
    {
        if self.find_section(section).is_none() {
            return Err(CfgGetFilenameError::NoSection);
        }
        match self.find_value(section, key) {
            Some(v) => Ok(v.clone()),
            None => Err(CfgGetFilenameError::NoKey),
        }
    }

    /// Binds `value` to `key` in section `section`, creating the
    /// section if it is new, and hands back the value previously
    /// bound there, if any.  No other binding changes.
    pub fn set_string(&mut self, section: String, key: String, value: String) -> (r: Option<
        String,
    >)
        requires
            old(self).wf(),
        ensures
            final(self).wf(),
            final(self).spec_value(section@, key@) == Some(value@),
            forall|s: Seq<char>, k: Seq<char>|
                s != section@ || k != key@ ==> #[trigger] final(self).spec_value(s, k) == old(
                    self,
                ).spec_value(s, k),
            forall|s: Seq<char>|
                #[trigger] final(self).spec_has_section(s) == (old(self).spec_has_section(s) || s
                    == section@),
            match r {
                Some(v) => old(self).spec_value(section@, key@) == Some(v@),
                None => old(self).spec_value(section@, key@) is None,
            },
    {
        let si = match self.find_section(section.as_str()) {
            Some(si) => si,
            None => {
                let ghost old_data = self.data@;
                let ghost sname = section@;
                let mut entries: Vec<(String, String)> = Vec::new();
                entries.push((key, value));
                self.data.push((section, entries));
                proof {
                    assert(self.data@.last().0@ == sname);
                    assert(self.data@ =~= old_data.push(self.data@.last()));
                    assert forall|s: Seq<char>| true implies spec_assoc(self.data@, s) == (if s
                        == sname {
                        Some(self.data@.last().1)
                    } else {
                        spec_assoc(old_data, s)
                    }) by {
                        lemma_assoc_push(old_data, self.data@.last(), s);
                    }
                    assert(self.data@.last().1@[0].0@ == key@);
                    lemma_assoc_at(self.data@.last().1@, key@, 0);
                    assert forall|k: Seq<char>| k != key@ implies spec_assoc(
                        self.data@.last().1@,
                        k,
                    ) is None by {
                        lemma_assoc_none(self.data@.last().1@, k);
                    }
                }
                return None;
            },
        };
        self.set_in_section(si, key, value)
    }

    /// Folds every binding of `other` into `self`: sections of
    /// `other` that `self` lacks are adopted whole, and where both
    /// hold an entry under the same section and key, `other` wins.
    pub fn merge(&mut self, other: Cfg)
        requires
            old(self).wf(),
            other.wf(),
        ensures
            final(self).wf(),
            forall|s: Seq<char>, k: Seq<char>|
                #[trigger] final(self).spec_value(s, k) == (if other.spec_value(s, k) is Some {
                    other.spec_value(s, k)
                } else {
                    old(self).spec_value(s, k)
                }),
            forall|s: Seq<char>|
                #[trigger] final(self).spec_has_section(s) == (old(self).spec_has_section(s)
                    || other.spec_has_section(s)),
    {
        let ghost ov = other.data@;
        let mut od = other.data;
        let total = od.len();
        let mut oi: usize = 0;
        while od.len() > 0
            invariant
                self.wf(),
                spec_names_unique(ov),
                forall|i: int| 0 <= i < ov.len() ==> spec_names_unique((#[trigger] ov[i]).1@),
                oi + od@.len() == ov.len(),
                ov.len() == total,
                od@ == ov.skip(oi as int),
                forall|s: Seq<char>, k: Seq<char>|
                    spec_section_before(ov, s, oi as int) && spec_value_of(ov, s, k) is Some
                        ==> #[trigger] self.spec_value(s, k) == spec_value_of(ov, s, k),
                forall|s: Seq<char>, k: Seq<char>|
                    !(spec_section_before(ov, s, oi as int) && spec_value_of(ov, s, k) is Some)
                        ==> #[trigger] self.spec_value(s, k) == old(self).spec_value(s, k),
                forall|s: Seq<char>|
                    #[trigger] self.spec_has_section(s) == (old(self).spec_has_section(s)
                        || spec_section_before(ov, s, oi as int)),
            decreases od@.len(),
        {
            let p = od.remove(0);
            let ghost n = ov[oi as int].0@;
            proof {
                assert(od@ =~= ov.skip(oi + 1));
                assert(p == ov[oi as int]);
                assert(forall|j: int| 0 <= j < oi ==> (#[trigger] ov[j]).0@ != n);
                lemma_assoc_at(ov, n, oi as int);
                assert(!spec_section_before(ov, n, oi as int));
            }
            let ghost self_pre = *self;
            match self.find_section(p.0.as_str()) {
                None => {
                    let ghost old_data = self.data@;
                    self.data.push(p);
                    proof {
                        assert(self.data@ =~= old_data.push(self.data@.last()));
                        assert(self.data@.last().0@ == n);
                        assert forall|s: Seq<char>| true implies spec_assoc(self.data@, s) == (
                        if s == n {
                            Some(self.data@.last().1)
                        } else {
                            spec_assoc(old_data, s)
                        }) by {
                            lemma_assoc_push(old_data, self.data@.last(), s);
                        }
                        assert(self.data@.last().1 == ov[oi as int].1);
                        // the five branch facts
                        assert(forall|k: Seq<char>| #![auto]
                            self.spec_value(n, k) == spec_value_of(ov, n, k));
                        assert forall|k: Seq<char>| #![auto] spec_value_of(ov, n, k) is None
                            implies self.spec_value(n, k) == old(self).spec_value(n, k) by {
                            assert(!self_pre.spec_has_section(n));
                            assert(!old(self).spec_has_section(n));
                        }
                        assert(forall|s: Seq<char>, k: Seq<char>| #![auto]
                            s != n ==> self.spec_value(s, k) == self_pre.spec_value(s, k));
                        assert(forall|s: Seq<char>| #![auto]
                            s != n ==> self.spec_has_section(s) == self_pre.spec_has_section(s));
                        assert(self.spec_has_section(n));
                    }
                },
                Some(si) => {
                    let ghost ent = ov[oi as int].1@;
                    let mut e = p.1;
                    let ghost sname = p.0@;
                    let mut ii: usize = 0;
                    let etotal = e.len();
                    proof {
                        assert(e@ =~= ent.skip(0));
                        assert(spec_names_unique(ent));
                    }
                    while e.len() > 0
                        invariant
                            self.wf(),
                            spec_names_unique(ent),
                            sname == n,
                            n == ov[oi as int].0@,
                            oi < ov.len(),
                            ent == ov[oi as int].1@,
                            spec_assoc(ov, n) == Some(ov[oi as int].1),
                            !spec_section_before(ov, n, oi as int),
                            ii + e@.len() == ent.len(),
                            ent.len() == etotal,
                            e@ == ent.skip(ii as int),
                            si < self.data@.len(),
                            self.data@[si as int].0@ == n,
                            self.spec_has_section(n) == self_pre.spec_has_section(n),
                            self_pre.spec_has_section(n),
                            forall|s: Seq<char>, k: Seq<char>| #![auto]
                                s != n ==> self.spec_value(s, k) == self_pre.spec_value(s, k),
                            forall|s: Seq<char>| #![auto]
                                self.spec_has_section(s) == self_pre.spec_has_section(s),
                            forall|k: Seq<char>| #![auto]
                                (exists|j: int| 0 <= j < ii && (#[trigger] ent[j]).0@ == k)
                                    ==> self.spec_value(n, k) == spec_value_of(ov, n, k),
                            forall|k: Seq<char>| #![auto]
                                !(exists|j: int| 0 <= j < ii && (#[trigger] ent[j]).0@ == k)
                                    ==> self.spec_value(n, k) == self_pre.spec_value(n, k),
                        decreases e@.len(),
                    {
                        let q = e.remove(0);
                        proof {
                            assert(e@ =~= ent.skip(ii + 1));
                            assert(q == ent[ii as int]);
                            assert(forall|j: int|
                                0 <= j < ii ==> (#[trigger] ent[j]).0@ != q.0@);
                            lemma_assoc_at(ent, q.0@, ii as int);
                            assert(spec_value_of(ov, n, q.0@) == Some(ent[ii as int].1@));
                        }
                        let ghost qkey = q.0@;
                        self.set_in_section(si, q.0, q.1);
                        proof {
                            assert(self.spec_value(n, qkey) == spec_value_of(ov, n, qkey));
                            assert forall|k: Seq<char>| #![auto]
                                (exists|j: int| 0 <= j < ii + 1 && (#[trigger] ent[j]).0@ == k)
                                    implies self.spec_value(n, k) == spec_value_of(ov, n, k) by {
                                let j = choose|j: int|
                                    0 <= j < ii + 1 && (#[trigger] ent[j]).0@ == k;
                                if j < ii {
                                    assert(ent[j].0@ != qkey);
                                }
                            }
                        }
                        ii = ii + 1;
                    }
                    proof {
                        assert(ent.skip(ii as int).len() == 0);
                        assert(ii == ent.len());
                        assert forall|k: Seq<char>| #![auto] spec_value_of(ov, n, k) is Some
                            implies self.spec_value(n, k) == spec_value_of(ov, n, k) by {
                            lemma_assoc_some_exists(ent, k);
                        }
                        assert forall|k: Seq<char>| #![auto] spec_value_of(ov, n, k) is None
                            implies self.spec_value(n, k) == old(self).spec_value(n, k) by {
                            lemma_assoc_some_none_helper(ent, k);
                            assert(self.spec_value(n, k) == self_pre.spec_value(n, k));
                        }
                        assert(forall|s: Seq<char>, k: Seq<char>| #![auto]
                            s != n ==> self.spec_value(s, k) == self_pre.spec_value(s, k));
                        assert(forall|s: Seq<char>| #![auto]
                            self.spec_has_section(s) == self_pre.spec_has_section(s));
                        assert(self.spec_has_section(n));
                    }
                },
            }
            oi = oi + 1;
            proof {
                assert forall|s: Seq<char>, k: Seq<char>|
                    spec_section_before(ov, s, oi as int) && spec_value_of(ov, s, k) is Some
                    implies #[trigger] self.spec_value(s, k) == spec_value_of(ov, s, k) by {
                    if s == n {
                        assert(self.spec_value(s, k) == spec_value_of(ov, s, k));
                    } else {
                        let j = choose|j: int| 0 <= j < oi && (#[trigger] ov[j]).0@ == s;
                        assert(j < oi - 1);
                        assert(spec_section_before(ov, s, oi - 1));
                        assert(self_pre.spec_value(s, k) == spec_value_of(ov, s, k));
                        assert(self.spec_value(s, k) == self_pre.spec_value(s, k));
                    }
                }
                assert forall|s: Seq<char>, k: Seq<char>|
                    !(spec_section_before(ov, s, oi as int) && spec_value_of(ov, s, k) is Some)
                    implies #[trigger] self.spec_value(s, k) == old(self).spec_value(s, k) by {
                    if s == n {
                    } else {
                        assert(!(spec_section_before(ov, s, oi - 1) && spec_value_of(ov, s, k)
                            is Some)) by {
                            if spec_section_before(ov, s, oi - 1) {
                                let j = choose|j: int|
                                    0 <= j < oi - 1 && (#[trigger] ov[j]).0@ == s;
                                assert(spec_section_before(ov, s, oi as int));
                            }
                        }
                        assert(self_pre.spec_value(s, k) == old(self).spec_value(s, k));
                    }
                }
                assert forall|s: Seq<char>| true implies #[trigger] self.spec_has_section(s) == (
                old(self).spec_has_section(s) || spec_section_before(ov, s, oi as int)) by {
                    if s == n {
                        assert(ov[oi - 1].0@ == n);
                        assert(spec_section_before(ov, s, oi as int));
                        assert(self.spec_has_section(n));
                    } else {
                        assert(self.spec_has_section(s) == self_pre.spec_has_section(s));
                        assert(self_pre.spec_has_section(s) == (old(self).spec_has_section(s)
                            || spec_section_before(ov, s, oi - 1)));
                        assert(spec_section_before(ov, s, oi as int) == spec_section_before(
                            ov,
                            s,
                            oi - 1,
                        )) by {
                            if spec_section_before(ov, s, oi as int) {
                                let j = choose|j: int|
                                    0 <= j < oi && (#[trigger] ov[j]).0@ == s;
                                assert(j < oi - 1);
                            }
                            if spec_section_before(ov, s, oi - 1) {
                                let j = choose|j: int|
                                    0 <= j < oi - 1 && (#[trigger] ov[j]).0@ == s;
                                assert(spec_section_before(ov, s, oi as int));
                            }
                        }
                    }
                }
            }
        }
        proof {
            assert(ov.skip(oi as int).len() == 0);
            assert(oi == ov.len());
            assert forall|s: Seq<char>, k: Seq<char>| true implies #[trigger] self.spec_value(
                s,
                k,
            ) == (if spec_value_of(ov, s, k) is Some {
                spec_value_of(ov, s, k)
            } else {
                old(self).spec_value(s, k)
            }) by {
                if spec_value_of(ov, s, k) is Some {
                    lemma_assoc_some_exists(ov, s);
                    assert(spec_section_before(ov, s, oi as int));
                }
            }
            assert forall|s: Seq<char>| true implies #[trigger] self.spec_has_section(s) == (old(
                self,
            ).spec_has_section(s) || spec_assoc(ov, s) is Some) by {
                if spec_assoc(ov, s) is Some {
                    lemma_assoc_some_exists(ov, s);
                    assert(spec_section_before(ov, s, oi as int));
                }
                if spec_section_before(ov, s, oi as int) {
                    let j = choose|j: int| 0 <= j < oi && (#[trigger] ov[j]).0@ == s;
                    lemma_assoc_first_witness(ov, s);
                    let j0 = choose|j0: int|
                        0 <= j0 < ov.len() && (#[trigger] ov[j0]).0@ == s && forall|j1: int|
                            0 <= j1 < j0 ==> (#[trigger] ov[j1]).0@ != s;
                    lemma_assoc_at(ov, s, j0);
                }
            }
        }
    }

    /// Binds `value` to `key` inside section number `si`, which must
    /// exist; no other binding changes, and no section appears or
    /// disappears.
    fn set_in_section(&mut self, si: usize, key: String, value: String) -> (r: Option<String>)
        requires
            old(self).wf(),
            si < old(self).data@.len(),
        ensures
            final(self).wf(),
            final(self).data@.len() == old(self).data@.len(),
            final(self).data@[si as int].0 == old(self).data@[si as int].0,
            final(self).spec_value(old(self).data@[si as int].0@, key@) == Some(value@),
            forall|s: Seq<char>, k: Seq<char>|
                s != old(self).data@[si as int].0@ || k != key@ ==> #[trigger] final(self).spec_value(s, k) == old(self).spec_value(s, k),
            forall|s: Seq<char>|
                #[trigger] final(self).spec_has_section(s) == old(self).spec_has_section(s),
            match r {
                Some(v) => old(self).spec_value(old(self).data@[si as int].0@, key@) == Some(v@),
                None => old(self).spec_value(old(self).data@[si as int].0@, key@) is None,
            },
    {
        let ghost old_data = self.data@;
        let ghost section_name = self.data@[si as int].0@;
        proof {
            lemma_assoc_at(old_data, section_name, si as int);
        }
        let ghost old_sec = self.data@[si as int].1@;
        match self.find_entry(si, key.as_str()) {
            Some(ki) => {
                let mut v = value;
                core::mem::swap(&mut self.data[si].1[ki].1, &mut v);
                proof {
                    let new_sec = self.data@[si as int].1@;
                    assert(new_sec =~= old_sec.update(
                        ki as int,
                        (old_sec[ki as int].0, new_sec[ki as int].1),
                    ));
                    assert forall|k: Seq<char>| true implies spec_assoc(new_sec, k) == (if k
                        == key@ {
                        Some(new_sec[ki as int].1)
                    } else {
                        spec_assoc(old_sec, k)
                    }) by {
                        lemma_assoc_update(
                            old_sec,
                            ki as int,
                            (old_sec[ki as int].0, new_sec[ki as int].1),
                            k,
                        );
                    }
                    assert(self.data@ =~= old_data.update(
                        si as int,
                        (old_data[si as int].0, self.data@[si as int].1),
                    ));
                    assert forall|s: Seq<char>| true implies spec_assoc(self.data@, s) == (if s
                        == section_name {
                        Some(self.data@[si as int].1)
                    } else {
                        spec_assoc(old_data, s)
                    }) by {
                        lemma_assoc_update(
                            old_data,
                            si as int,
                            (old_data[si as int].0, self.data@[si as int].1),
                            s,
                        );
                    }
                }
                Some(v)
            },
            None => {
                self.data[si].1.push((key, value));
                proof {
                    let new_sec = self.data@[si as int].1@;
                    assert(new_sec =~= old_sec.push(new_sec.last()));
                    assert(new_sec.last().0@ == key@);
                    assert forall|k: Seq<char>| true implies spec_assoc(new_sec, k) == (if k
                        == key@ {
                        Some(new_sec.last().1)
                    } else {
                        spec_assoc(old_sec, k)
                    }) by {
                        lemma_assoc_push(old_sec, new_sec.last(), k);
                    }
                    assert(self.data@ =~= old_data.update(
                        si as int,
                        (old_data[si as int].0, self.data@[si as int].1),
                    ));
                    assert forall|s: Seq<char>| true implies spec_assoc(self.data@, s) == (if s
                        == section_name {
                        Some(self.data@[si as int].1)
                    } else {
                        spec_assoc(old_data, s)
                    }) by {
                        lemma_assoc_update(
                            old_data,
                            si as int,
                            (old_data[si as int].0, self.data@[si as int].1),
                            s,
                        );
                    }
                }
                None
            },
        }
    }
}

} // verus!
