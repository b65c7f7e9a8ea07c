//! Discovery of the project-generation tool a project uses, from the plain
//! names of the entries at its root. Invoking the tool is the caller's
//! business; what would be run, and on which config files a regeneration
//! is due, is decided here.

use crate::text::{file_name, file_name_of, str_eq};
use vstd::prelude::*;
use vstd::string::*;

verus! {

/// The project-generation tool a project is maintained with.
#[derive(Clone, Copy, PartialEq, Eq, Structural, Debug)]
pub enum ProjectGenerator {
    /// No generator: the project carries its own project file.
    NoGenerator,
    /// The XCodeGen generator, configured by `project.yml`.
    XCodeGen,
    /// The Tuist generator, configured by `Project.swift`.
    Tuist,
}

impl Default for ProjectGenerator {
    fn default() -> (r: Self)
        ensures
            r is NoGenerator,
    {
        ProjectGenerator::NoGenerator
    }
}

/// The generator the entries at a project root identify: `project.yml`
/// marks XCodeGen, else `Project.swift` marks Tuist, else there is none.
pub open spec fn spec_generator_of(names: Seq<Seq<char>>) -> ProjectGenerator {
    if names.contains("project.yml"@) {
        ProjectGenerator::XCodeGen
    } else if names.contains("Project.swift"@) {
        ProjectGenerator::Tuist
    } else {
        ProjectGenerator::NoGenerator
    }
}

fn contains_name(entries: &Vec<String>, name: &str) -> (r: bool)
    ensures
        r == entries@.map_values(|s: String| s@).contains(name@),
{
    let ghost names = entries@.map_values(|s: String| s@);
    let n = entries.len();
    let mut i: usize = 0;
    while i < n
        invariant
            0 <= i <= n,
            n == names.len(),
            names == entries@.map_values(|s: String| s@),
            forall|k: int| 0 <= k < i ==> names[k] != name@,
        decreases n - i,
    {
        if str_eq(entries[i].as_str(), name) {
            proof {
                assert(names[i as int] == name@);
            }
            return true;
        }
        i += 1;
    }
    false
}

impl ProjectGenerator {
    /// Identifies the generator from the names of the entries found at
    /// the project root.
    pub fn new(root_entries: &Vec<String>) -> (g: Self)
        ensures
            g == spec_generator_of(root_entries@.map_values(|s: String| s@)),
    {
        if contains_name(root_entries, "project.yml") {
            ProjectGenerator::XCodeGen
        } else if contains_name(root_entries, "Project.swift") {
            ProjectGenerator::Tuist
        } else {
            ProjectGenerator::NoGenerator
        }
    }

    /// Whether the path names a supported generator config file.
    pub fn is_genertor_file(path: &str) -> (r: bool)
        ensures
            r == (file_name_of(path@) == "project.yml"@ || file_name_of(path@)
                == "Project.swift"@),
    {
        let name = file_name(path);
        str_eq(name.as_str(), "project.yml") || str_eq(name.as_str(), "Project.swift")
    }

    /// The command line a regeneration runs, or nothing when the project
    /// has no generator. Locating the tool on the machine and spawning it
    /// is the caller's; it reports the spawned process's own success flag.
    pub fn command_line(&self) -> (r: Option<Vec<String>>)
        ensures
            self is NoGenerator <==> r is None,
            self is XCodeGen ==> (r matches Some(args) && args@.map_values(|s: String| s@)
                == seq!["xcodegen"@, "generate"@, "-c"@]),
            self is Tuist ==> (r matches Some(args) && args@.map_values(|s: String| s@) == seq![
                "tuist"@,
                "generate"@,
                "--no-open"@,
            ]),
    {
        match self {
            ProjectGenerator::NoGenerator => None,
            ProjectGenerator::XCodeGen => {
                let mut args: Vec<String> = Vec::new();
                args.push(String::from_str("xcodegen"));
                args.push(String::from_str("generate"));
                args.push(String::from_str("-c"));
                proof {
                    assert(args@.map_values(|s: String| s@) =~= seq![
                        "xcodegen"@,
                        "generate"@,
                        "-c"@,
                    ]);
                }
                Some(args)
            },
            ProjectGenerator::Tuist => {
                let mut args: Vec<String> = Vec::new();
                args.push(String::from_str("tuist"));
                args.push(String::from_str("generate"));
                args.push(String::from_str("--no-open"));
                proof {
                    assert(args@.map_values(|s: String| s@) =~= seq![
                        "tuist"@,
                        "generate"@,
                        "--no-open"@,
                    ]);
                }
                Some(args)
            },
        }
    }

    /// Returns `true` if the project generator is [`XCodeGen`].
    ///
    /// [`XCodeGen`]: ProjectGenerator::XCodeGen
    #[must_use]
    pub fn is_xcodegen(&self) -> (r: bool)
        ensures
            r == (self is XCodeGen),
    {
        matches!(self, Self::XCodeGen)
    }

    /// Returns `true` if the project generator is [`Tuist`].
    ///
    /// [`Tuist`]: ProjectGenerator::Tuist
    #[must_use]
    pub fn is_tuist(&self) -> (r: bool)
        ensures
            r == (self is Tuist),
    {
        matches!(self, Self::Tuist)
    }

    /// Returns `true` if the project generator is [`None`].
    ///
    /// [`None`]: ProjectGenerator::NoGenerator
    #[must_use]
    pub fn is_none(&self) -> (r: bool)
        ensures
            r == (self is NoGenerator),
    {
        matches!(self, Self::NoGenerator)
    }
}

} // verus!
