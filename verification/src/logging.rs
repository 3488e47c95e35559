//! Persistence of execution reports: where a report goes and which files are
//! reports.
use vstd::prelude::*;

use crate::text::{append_str, chars_eq_str, chars_of, slice_chars, string_from};

verus! {

broadcast use vstd::string::group_string_axioms;

pub struct ExecutionLogger {
    dir: String,
    persist: bool,
}

/// Index of the last `c` in `s`, if any.
pub open spec fn last_index_of(s: Seq<char>, c: char) -> Option<int> {
    if exists|i: int| 0 <= i < s.len() && s[i] == c {
        Some(choose|i: int| 0 <= i < s.len() && s[i] == c && forall|j: int| i < j < s.len() ==> s[j] != c)
    } else {
        None
    }
}

/// The extension of a file name, as `Path::extension` gives it: the text
/// after the last dot, unless the name is `..` or the dot is its first
/// character.
pub open spec fn extension(name: Seq<char>) -> Option<Seq<char>> {
    if name == ".."@ {
        None
    } else {
        match last_index_of(name, '.') {
            Some(i) => if i == 0 {
                None
            } else {
                Some(name.skip(i + 1))
            },
            None => None,
        }
    }
}

impl ExecutionLogger {
    pub closed spec fn dir_view(&self) -> Seq<char> {
        self.dir@
    }

    pub closed spec fn persists(&self) -> bool {
        self.persist
    }

    pub fn new(dir: &str, persist: bool) -> (l: Self)
        ensures
            l.dir_view() == dir@,
            l.persists() == persist,
    {
        ExecutionLogger { dir: String::from_str(dir), persist }
    }

    /// The directory the reports go to.
    pub fn dir(&self) -> (d: &str)
        ensures
            d@ == self.dir_view(),
    {
        self.dir.as_str()
    }

    /// The file name for the report of run `execution_id`, or none when
    /// reports are not kept.
    pub fn log_file_name(&self, execution_id: &str) -> (f: Option<String>)
        ensures
            !self.persists() ==> f is None,
            self.persists() ==> (f matches Some(n) && n@ == execution_id@ + ".json"@),
    {
        if !self.persist {
            return None;
        }
        let mut v = chars_of(execution_id);
        append_str(&mut v, ".json");
        Some(string_from(&v))
    }

    /// Whether a file of that name is a report: its extension is `json`.
    pub fn is_log_file(file_name: &str) -> (b: bool)
        ensures
            b == (extension(file_name@) == Some("json"@)),
    {
        let v = chars_of(file_name);
        if chars_eq_str(&v, "..") {
            return false;
        }
        let mut i = v.len();
        while i > 0 && v[i - 1] != '.'
            invariant
                i <= v@.len(),
                forall|j: int| i <= j < v@.len() ==> v@[j] != '.',
            decreases i,
        {
            i = i - 1;
        }
        if i == 0 {
            assert(!(exists|k: int| 0 <= k < v@.len() && v@[k] == '.'));
            return false;
        }
        let dot = i - 1;
        proof {
            let k = choose|k: int| 0 <= k < v@.len() && v@[k] == '.' && forall|j: int| k < j < v@.len() ==> v@[j] != '.';
            assert(v@[dot as int] == '.');
            assert(k == dot) by {
                if k < dot {
                    assert(v@[dot as int] != '.');
                } else if k > dot {
                    assert(v@[k] != '.');
                }
            }
        }
        if dot == 0 {
            return false;
        }
        let ext = slice_chars(&v, dot + 1, v.len());
        assert(ext@ == v@.skip(dot + 1));
        chars_eq_str(&ext, "json")
    }
}

} // verus!
