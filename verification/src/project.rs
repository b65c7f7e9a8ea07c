//! The per-project state an XCodeGen-maintained project carries: its
//! targets (merged from what the project file declares, preserving which
//! ones are being watched), its watch-ignore patterns, and the decision
//! and message flows of regeneration and compile-database updates. Reading
//! the project file and running the build tool happen outside; what they
//! discover and report comes in as plain values.

use crate::message::Message;
use crate::text::file_name_of;
use crate::watch::Event;
use crate::DaemonError;
use vstd::prelude::*;
use vstd::string::*;

verus! {

/// What is known of one build target.
pub struct TargetInfo {
    pub key: String,
    pub platform: String,
    pub watching: bool,
}

/// The mathematical content of a `TargetInfo`.
pub ghost struct TargetModel {
    pub key: Seq<char>,
    pub platform: Seq<char>,
    pub watching: bool,
}

impl View for TargetInfo {
    type V = TargetModel;

    open spec fn view(&self) -> TargetModel {
        TargetModel { key: self.key@, platform: self.platform@, watching: self.watching }
    }
}

/// Inserting one discovered `(key, platform)` pair: a known target keeps
/// its watching flag and takes the fresh platform; an unknown one is added
/// unwatched.
pub open spec fn spec_upsert(ts: Seq<TargetModel>, key: Seq<char>, platform: Seq<char>) -> Seq<
    TargetModel,
> {
    if exists|i: int| 0 <= i < ts.len() && ts[i].key == key {
        let i = choose|i: int| 0 <= i < ts.len() && ts[i].key == key;
        ts.update(i, TargetModel { key, platform, watching: ts[i].watching })
    } else {
        ts.push(TargetModel { key, platform, watching: false })
    }
}

/// Merging a whole discovery, pair by pair, in order.
pub open spec fn spec_merge(ts: Seq<TargetModel>, d: Seq<(Seq<char>, Seq<char>)>) -> Seq<
    TargetModel,
>
    decreases d.len(),
{
    if d.len() == 0 {
        ts
    } else {
        spec_merge(spec_upsert(ts, d.first().0, d.first().1), d.drop_first())
    }
}

/// An XCodeGen-maintained project.
pub struct XCodeGenProject {
    pub root: String,
    pub name: String,
    pub targets: Vec<TargetInfo>,
    pub num_clients: i32,
    pub watchignore: Vec<String>,
}

impl XCodeGenProject {
    pub open spec fn target_models(self) -> Seq<TargetModel> {
        self.targets@.map_values(|t: TargetInfo| t@)
    }

    /// Target keys are pairwise distinct: at most one entry per target.
    pub open spec fn wf(self) -> bool {
        forall|i: int, j: int|
            0 <= i < j < self.target_models().len() ==> self.target_models()[i].key
                != self.target_models()[j].key
    }

    /// Sets up a freshly opened project for its first client: no targets
    /// yet (a discovery is merged in afterwards), and the generator's own
    /// output directories appended to the watch-ignore patterns.
    pub fn new(root: String, name: String, watchignore: Vec<String>) -> (p: Self)
        ensures
            p.wf(),
            p.root == root,
            p.name == name,
            p.num_clients == 1,
            p.target_models() == Seq::<TargetModel>::empty(),
            p.watchignore@.map_values(|s: String| s@) == watchignore@.map_values(|s: String| s@)
                + seq!["**/*.xcodeproj/**"@, "**/*.xcworkspace/**"@],
    {
        let mut watchignore = watchignore;
        let ghost base = watchignore@.map_values(|s: String| s@);
        watchignore.push(String::from_str("**/*.xcodeproj/**"));
        watchignore.push(String::from_str("**/*.xcworkspace/**"));
        let p = XCodeGenProject { root, name, targets: Vec::new(), num_clients: 1, watchignore };
        proof {
            assert(p.target_models() =~= Seq::<TargetModel>::empty());
            assert(p.watchignore@.map_values(|s: String| s@) =~= base + seq![
                "**/*.xcodeproj/**"@,
                "**/*.xcworkspace/**"@,
            ]);
        }
        p
    }

    fn find_target(&self, key: &str) -> (r: Option<usize>)
        ensures
            r matches Some(i) ==> i < self.target_models().len() && self.target_models()[
                i as int
            ].key == key@,
            r is None ==> forall|k: int|
                0 <= k < self.target_models().len() ==> self.target_models()[k].key != key@,
    {
        let n = self.targets.len();
        let mut i: usize = 0;
        while i < n
            invariant
                0 <= i <= n,
                n == self.target_models().len(),
                forall|k: int| 0 <= k < i ==> self.target_models()[k].key != key@,
            decreases n - i,
        {
            if crate::text::str_eq(self.targets[i].key.as_str(), key) {
                return Some(i);
            }
            i += 1;
        }
        None
    }

    fn upsert_target(&mut self, key: &str, platform: &str)
        requires
            old(self).wf(),
        ensures
            final(self).wf(),
            final(self).root == old(self).root,
            final(self).name == old(self).name,
            final(self).num_clients == old(self).num_clients,
            final(self).watchignore == old(self).watchignore,
            final(self).target_models() == spec_upsert(old(self).target_models(), key@, platform@),
    {
        let ghost pre = self.target_models();
        let found = self.find_target(key);
        match found {
            Some(i) => {
                let watching = self.targets[i].watching;
                let fresh = TargetInfo {
                    key: String::from_str(key),
                    platform: String::from_str(platform),
                    watching,
                };
                self.targets.remove(i);
                self.targets.insert(i, fresh);
                proof {
                    let w = choose|w: int| 0 <= w < pre.len() && pre[w].key == key@;
                    assert(pre[w].key == pre[i as int].key);
                    assert(w == i);
                    assert(self.target_models() =~= pre.update(
                        i as int,
                        TargetModel { key: key@, platform: platform@, watching: pre[w].watching },
                    ));
                }
            },
            None => {
                self.targets.push(
                    TargetInfo {
                        key: String::from_str(key),
                        platform: String::from_str(platform),
                        watching: false,
                    },
                );
                proof {
                    assert(self.target_models() =~= pre.push(
                        TargetModel { key: key@, platform: platform@, watching: false },
                    ));
                }
            },
        }
    }

    /// Merges a fresh discovery of `(target, platform)` pairs into the
    /// known targets: platforms are brought up to date, targets appearing
    /// for the first time join unwatched, and which targets are being
    /// watched is preserved.
    pub fn merge_targets(&mut self, discovered: &Vec<(String, String)>)
        requires
            old(self).wf(),
        ensures
            final(self).wf(),
            final(self).root == old(self).root,
            final(self).name == old(self).name,
            final(self).num_clients == old(self).num_clients,
            final(self).watchignore == old(self).watchignore,
            final(self).target_models() == spec_merge(
                old(self).target_models(),
                discovered@.map_values(|p: (String, String)| (p.0@, p.1@)),
            ),
    {
        let ghost d = discovered@.map_values(|p: (String, String)| (p.0@, p.1@));
        let n = discovered.len();
        let mut i: usize = 0;
        proof {
            assert(d.skip(0) =~= d);
        }
        while i < n
            invariant
                0 <= i <= n,
                n == d.len(),
                d == discovered@.map_values(|p: (String, String)| (p.0@, p.1@)),
                self.wf(),
                self.root == old(self).root,
                self.name == old(self).name,
                self.num_clients == old(self).num_clients,
                self.watchignore == old(self).watchignore,
                spec_merge(self.target_models(), d.skip(i as int)) == spec_merge(
                    old(self).target_models(),
                    d,
                ),
            decreases n - i,
        {
            let pair = &discovered[i];
            proof {
                assert(d.skip(i as int)[0] == d[i as int]);
                assert(d.skip(i as int).drop_first() =~= d.skip(i as int + 1));
            }
            self.upsert_target(pair.0.as_str(), pair.1.as_str());
            i += 1;
        }
        proof {
            assert(d.skip(n as int) =~= Seq::<(Seq<char>, Seq<char>)>::empty());
        }
    }

    /// One more client opened this project.
    pub fn inc_clients(&mut self)
        requires
            old(self).num_clients < i32::MAX,
        ensures
            final(self).num_clients == old(self).num_clients + 1,
            final(self).root == old(self).root,
            final(self).name == old(self).name,
            final(self).targets == old(self).targets,
            final(self).watchignore == old(self).watchignore,
    {
        self.num_clients = self.num_clients + 1;
    }

    /// A client left this project.
    pub fn dec_clients(&mut self)
        requires
            old(self).num_clients > 0,
        ensures
            final(self).num_clients == old(self).num_clients - 1,
            final(self).root == old(self).root,
            final(self).name == old(self).name,
            final(self).targets == old(self).targets,
            final(self).watchignore == old(self).watchignore,
    {
        self.num_clients = self.num_clients - 1;
    }

    /// Whether a filesystem event makes a regeneration due: a content
    /// update of the generator config file, or any creation, removal or
    /// rename.
    pub fn should_generate(&self, event: &Event) -> (r: bool)
        ensures
            r == ((event.kind is ContentUpdate && file_name_of(event.path@) == "project.yml"@)
                || event.kind is Create || event.kind is Remove || event.kind is Rename),
    {
        let name = event.file_name();
        let is_config_file = crate::text::str_eq(name.as_str(), "project.yml");
        let is_content_update = event.is_content_update_event();
        let is_config_file_update = is_content_update && is_config_file;

        is_config_file_update || event.is_create_event() || event.is_remove_event()
            || event.is_rename_event()
    }
}

/// The banner texts of the update and regeneration flows.
pub open spec fn compiling_notice(name: Seq<char>) -> Seq<char> {
    "["@ + name + "] Compiling"@
}

pub open spec fn compiled_notice(name: Seq<char>) -> Seq<char> {
    "["@ + name + "] Compiled"@
}

pub open spec fn compile_failed_notice(name: Seq<char>) -> Seq<char> {
    "Fail to generated compile commands for "@ + name
}

pub open spec fn generating_notice(name: Seq<char>) -> Seq<char> {
    "["@ + name + "] Generating"@
}

pub open spec fn generated_notice(name: Seq<char>) -> Seq<char> {
    "["@ + name + "] Generated"@
}

/// The horizontal rule framing a banner in the logs.
pub open spec fn separator_line() -> Seq<char> {
    "-----------------------------------------------------------------"@
}

fn bracketed(name: &str, suffix: &str) -> (r: String)
    ensures
        r@ == "["@ + name@ + suffix@,
{
    let mut out = String::new();
    out.append("[");
    out.append(name);
    out.append(suffix);
    out
}

/// A banner: one notification and, framed by two separator rules, one log
/// line, all carrying the same announcement.
fn banner_messages(notice: String) -> (msgs: Vec<Message>)
    ensures
        msgs@.len() == 4,
        msgs@[0] matches Message::Notify { level, text } && level is Info && text@ == notice@,
        msgs@[1] matches Message::Log { level, text, .. } && level is Info && text@
            == separator_line(),
        msgs@[2] matches Message::Log { level, text, .. } && level is Info && text@ == notice@,
        msgs@[3] matches Message::Log { level, text, .. } && level is Info && text@
            == separator_line(),
{
    let mut msgs: Vec<Message> = Vec::new();
    let line = notice.clone();
    msgs.push(Message::notify_info(notice));
    msgs.push(
        Message::log_info(
            String::from_str("-----------------------------------------------------------------"),
        ),
    );
    msgs.push(Message::log_info(line));
    msgs.push(
        Message::log_info(
            String::from_str("-----------------------------------------------------------------"),
        ),
    );
    msgs
}

impl XCodeGenProject {
    /// The messages announcing a compile-database update of this project.
    /// The caller then runs the build tool, feeds its transcript through
    /// the compile-log parser, and reports the outcome to
    /// `compile_finish`.
    pub fn compile_begin_messages(&self) -> (msgs: Vec<Message>)
        ensures
            msgs@.len() == 4,
            msgs@[0] matches Message::Notify { level, text } && level is Info && text@
                == compiling_notice(self.name@),
            msgs@[2] matches Message::Log { level, text, .. } && level is Info && text@
                == compiling_notice(self.name@),
            msgs@[1] matches Message::Log { level, text, .. } && level is Info && text@
                == separator_line(),
            msgs@[3] matches Message::Log { level, text, .. } && level is Info && text@
                == separator_line(),
    {
        banner_messages(bracketed(self.name.as_str(), "] Compiling"))
    }

    /// What a finished compile-database update owes: on success the
    /// freshly parsed database is persisted (by the caller, replacing the
    /// old artifact whole) and one notification plus one log line report
    /// it; on failure exactly one error notification goes out and the
    /// update is a `ProcessError` naming this project.
    pub fn compile_finish(&self, success: bool) -> (r: (Vec<Message>, Result<(), DaemonError>))
        ensures
            success ==> r.0@.len() == 2 && (r.0@[0] matches Message::Notify { level, text }
                && level is Info && text@ == compiled_notice(self.name@)) && (r.0@[1] matches
            Message::Log { level, text, .. } && level is Info && text@ == compiled_notice(
                self.name@,
            )) && r.1 is Ok,
            !success ==> r.0@.len() == 1 && (r.0@[0] matches Message::Notify { level, text }
                && level is Error && text@ == compile_failed_notice(self.name@)) && (
            r.1 matches Err(e) && e matches DaemonError::ProcessError { target } && target@
                == self.name@),
    {
        let mut msgs: Vec<Message> = Vec::new();
        if success {
            msgs.push(Message::notify_info(bracketed(self.name.as_str(), "] Compiled")));
            msgs.push(Message::log_info(bracketed(self.name.as_str(), "] Compiled")));
            (msgs, Ok(()))
        } else {
            let mut text = String::new();
            text.append("Fail to generated compile commands for ");
            text.append(self.name.as_str());
            msgs.push(Message::notify_error(text));
            (msgs, Err(DaemonError::ProcessError { target: String::from_str(self.name.as_str()) }))
        }
    }

    /// The messages announcing a regeneration of this project's project
    /// file. The caller runs the generator's command line and reports the
    /// outcome to `generate_finish`.
    pub fn generate_begin_messages(&self) -> (msgs: Vec<Message>)
        ensures
            msgs@.len() == 4,
            msgs@[0] matches Message::Notify { level, text } && level is Info && text@
                == generating_notice(self.name@),
            msgs@[2] matches Message::Log { level, text, .. } && level is Info && text@
                == generating_notice(self.name@),
            msgs@[1] matches Message::Log { level, text, .. } && level is Info && text@
                == separator_line(),
            msgs@[3] matches Message::Log { level, text, .. } && level is Info && text@
                == separator_line(),
    {
        banner_messages(bracketed(self.name.as_str(), "] Generating"))
    }

    /// What a finished regeneration owes: on success one notification and
    /// one log line, and the caller merges the rediscovered targets; on
    /// failure the regeneration is a `GenerateError` and nothing is
    /// announced beyond the logs the process itself streamed.
    pub fn generate_finish(&self, success: bool) -> (r: (Vec<Message>, Result<(), DaemonError>))
        ensures
            success ==> r.0@.len() == 2 && (r.0@[0] matches Message::Notify { level, text }
                && level is Info && text@ == generated_notice(self.name@)) && (r.0@[1] matches
            Message::Log { level, text, .. } && level is Info && text@ == generated_notice(
                self.name@,
            )) && r.1 is Ok,
            !success ==> r.0@.len() == 0 && (r.1 matches Err(e) && e is GenerateError),
    {
        let mut msgs: Vec<Message> = Vec::new();
        if success {
            msgs.push(Message::notify_info(bracketed(self.name.as_str(), "] Generated")));
            msgs.push(Message::log_info(bracketed(self.name.as_str(), "] Generated")));
            (msgs, Ok(()))
        } else {
            (msgs, Err(DaemonError::GenerateError))
        }
    }
}

} // verus!
