//! Gradle wrapper helpers: locating `gradlew` at a project root and the
//! arguments of the tasks run through it.
use vstd::prelude::*;
use crate::apk::{path_join, path_joined};
use crate::error::Error;
use crate::project::dsl::string_views;
use crate::text::{chars_of, string_of, trim_end_char, trim_end_char_exec};

verus! {

/// A handle to a project's Gradle wrapper.
#[derive(Debug)]
pub struct Gradle {
    /// Project root (directory containing `gradlew`).
    pub root: String,
    /// The wrapper script (`gradlew` or `gradlew.bat` under the root).
    pub gradlew: String,
}

/// The wrapper scripts to look for, in order of preference: `gradlew.bat`
/// first on Windows, `gradlew` first elsewhere.
pub open spec fn wrapper_order(windows: bool) -> Seq<Seq<char>> {
    if windows {
        seq!["gradlew.bat"@, "gradlew"@]
    } else {
        seq!["gradlew"@, "gradlew.bat"@]
    }
}

/// The wrapper found at a root: the preferred script that exists there.
/// `present[i]` says whether `wrapper_order(windows)[i]` exists.
pub open spec fn chosen_wrapper(windows: bool, present: Seq<bool>) -> Option<Seq<char>> {
    if present[0] {
        Some(wrapper_order(windows)[0])
    } else if present[1] {
        Some(wrapper_order(windows)[1])
    } else {
        None
    }
}

/// The task that lists a module's tasks (`:app:tasks`), or the root's.
pub open spec fn tasks_task(module: Option<Seq<char>>) -> Seq<char> {
    match module {
        Some(m) => trim_end_char(m, ':') + ":tasks"@,
        None => "tasks"@,
    }
}

impl Gradle {
    /// The wrapper scripts to look for at a root, in order of preference.
    pub fn wrapper_names(windows: bool) -> (r: Vec<String>)
        ensures
            string_views(r@) == wrapper_order(windows),
    {
        let mut r: Vec<String> = Vec::new();
        if windows {
            r.push(String::from_str("gradlew.bat"));
            r.push(String::from_str("gradlew"));
        } else {
            r.push(String::from_str("gradlew"));
            r.push(String::from_str("gradlew.bat"));
        }
        assert(string_views(r@) =~= wrapper_order(windows));
        r
    }

    /// The Gradle wrapper at `root`. `present[i]` says whether the `i`-th of
    /// [`Gradle::wrapper_names`] exists there; the first that does is used.
    /// Errors when neither is present.
    pub fn at(root: &str, windows: bool, present: [bool; 2]) -> (r: Result<Gradle, Error>)
        ensures
            match r {
                Ok(g) => chosen_wrapper(windows, present@) matches Some(name) && g.root@ == root@
                    && g.gradlew@ == path_joined(root@, name),
                Err(e) => chosen_wrapper(windows, present@) is None && (
                e matches Error::NoGradleWrapper { root: r } && r@ == root@),
            },
    {
        let names = Gradle::wrapper_names(windows);
        assert(names@.len() == string_views(names@).len());
        let mut i: usize = 0;
        while i < 2
            invariant
                i <= 2,
                names@.len() == 2,
                string_views(names@) == wrapper_order(windows),
                forall|j: int| 0 <= j < i ==> !present@[j],
            decreases 2 - i,
        {
            if present[i] {
                assert(string_views(names@)[i as int] == names@[i as int]@);
                return Ok(
                    Gradle {
                        root: String::from_str(root),
                        gradlew: path_join(root, names[i].as_str()),
                    },
                );
            }
            i += 1;
        }
        Err(Error::NoGradleWrapper { root: String::from_str(root) })
    }

    /// The wrapper script this handle runs.
    pub fn gradlew(&self) -> (r: &str)
        ensures
            r@ == self.gradlew@,
    {
        self.gradlew.as_str()
    }

    /// The arguments that run `task` with `extra_args`.
    pub fn run_task(&self, task: &str, extra_args: &[&str]) -> (r: Vec<String>)
        ensures
            string_views(r@) == seq![task@] + extra_args@.map_values(|a: &str| a@),
    {
        let mut r: Vec<String> = Vec::new();
        r.push(String::from_str(task));
        let ghost head = seq![task@];
        assert(string_views(r@) =~= head);
        let mut i: usize = 0;
        while i < extra_args.len()
            invariant
                i <= extra_args@.len(),
                head == seq![task@],
                string_views(r@) == head + extra_args@.map_values(|a: &str| a@).subrange(
                    0,
                    i as int,
                ),
            decreases extra_args@.len() - i,
        {
            let ghost before = string_views(r@);
            r.push(String::from_str(extra_args[i]));
            assert(string_views(r@) =~= before.push(extra_args@[i as int]@));
            assert(extra_args@.map_values(|a: &str| a@).subrange(0, i + 1)
                =~= extra_args@.map_values(|a: &str| a@).subrange(0, i as int).push(
                extra_args@[i as int]@,
            ));
            i += 1;
        }
        assert(extra_args@.map_values(|a: &str| a@).subrange(0, extra_args@.len() as int)
            =~= extra_args@.map_values(|a: &str| a@));
        r
    }

    /// The arguments that stop all Gradle daemons of the project.
    pub fn stop_daemons(&self) -> (r: Vec<String>)
        ensures
            string_views(r@) == seq!["--stop"@],
    {
        let mut r: Vec<String> = Vec::new();
        r.push(String::from_str("--stop"));
        assert(string_views(r@) =~= seq!["--stop"@]);
        r
    }

    /// The arguments of `gradlew -q <module>:tasks --all`, which lists a
    /// module's tasks (the root's without a module).
    pub fn tasks(&self, module: Option<&str>) -> (r: Vec<String>)
        ensures
            string_views(r@) == seq![
                "-q"@,
                tasks_task(
                    match module {
                        Some(m) => Some(m@),
                        None => None,
                    },
                ),
                "--all"@,
            ],
    {
        let task = match module {
            Some(m) => {
                let t = trim_end_char_exec(&chars_of(m), ':');
                let mut s = string_of(&t);
                s.append(":tasks");
                s
            },
            None => String::from_str("tasks"),
        };
        let mut r: Vec<String> = Vec::new();
        r.push(String::from_str("-q"));
        r.push(task);
        r.push(String::from_str("--all"));
        assert(string_views(r@) =~= seq![
            "-q"@,
            tasks_task(
                match module {
                    Some(m) => Some(m@),
                    None => None,
                },
            ),
            "--all"@,
        ]);
        r
    }
}

} // verus!
