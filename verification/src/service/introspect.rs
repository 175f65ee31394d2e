//! The published shape of the bus interface: its methods and its signals, with
//! their signatures.
//!
//! The interface is a contract with every client: renaming a method or changing
//! an argument's type breaks them at run time, where a compiler cannot help.

use vstd::prelude::*;

verus! {

/// The interface's name on the bus.
pub const INTERFACE: &'static str = "org.backtrack.Daemon1";

/// A method: its name, the signature of its arguments, that of its result.
pub type Method = (Seq<char>, Seq<char>, Seq<char>);

/// The methods, by name.
///
/// `s` is a string, `t` a u64, `u` a u32, `x` an i64, `b` a boolean, `y` a byte,
/// `h` a file descriptor, `a` an array of what follows and `(..)` a structure.
pub open spec fn method_table() -> Seq<Method> {
    seq![
        ("BackupNow"@, ""@, "t"@),
        ("CancelJob"@, "t"@, ""@),
        ("Compact"@, ""@, "t"@),
        ("CompareFile"@, "ss"@, "t"@),
        ("DiscardRestore"@, "t"@, ""@),
        ("ExecuteRestore"@, "tsa(ss)"@, "t"@),
        ("GetConfig"@, ""@, "s"@),
        ("GetConfigKey"@, "s"@, "s"@),
        ("GetRestorePreview"@, "t"@, "(ssuuuuuua(ssbtxtxss)a(ss)as)"@),
        ("GetStatus"@, ""@, "(sttbtsuuttb)"@),
        ("ImportRepo"@, "ss"@, ""@),
        ("ListReplaced"@, "u"@, "a(sstxx)"@),
        ("LiveFile"@, "s"@, "h"@),
        ("PathsOnDisk"@, "as"@, "ay"@),
        ("Pause"@, "t"@, ""@),
        ("PauseJob"@, "t"@, ""@),
        ("PrepareRestore"@, "sass"@, "t"@),
        ("PreviewFile"@, "ss"@, "h"@),
        ("Prune"@, ""@, "t"@),
        ("PutBackReplaced"@, "s"@, "s"@),
        ("RestoreEverything"@, "ss"@, "t"@),
        ("RestoreFiles"@, "sasss"@, "t"@),
        ("RestoreInto"@, "sass"@, "t"@),
        ("Resume"@, ""@, ""@),
        ("ResumeJob"@, "t"@, ""@),
        ("SearchFiles"@, "s"@, "a(sssxxxxuxb)"@),
        ("SetConfig"@, "ss"@, ""@),
        ("SetupRepo"@, "ss"@, ""@),
        ("UndoRestore"@, "t"@, "t"@),
        ("Verify"@, ""@, "t"@),
    ]
}

/// The methods, by name, with the signatures of their arguments and results.
pub fn methods() -> (table: Vec<(&'static str, &'static str, &'static str)>)
    ensures
        table@.map_values(|m: (&'static str, &'static str, &'static str)| (m.0@, m.1@, m.2@))
            == method_table(),
{
    let table = vec![
        ("BackupNow", "", "t"),
        ("CancelJob", "t", ""),
        ("Compact", "", "t"),
        ("CompareFile", "ss", "t"),
        ("DiscardRestore", "t", ""),
        ("ExecuteRestore", "tsa(ss)", "t"),
        ("GetConfig", "", "s"),
        ("GetConfigKey", "s", "s"),
        ("GetRestorePreview", "t", "(ssuuuuuua(ssbtxtxss)a(ss)as)"),
        ("GetStatus", "", "(sttbtsuuttb)"),
        ("ImportRepo", "ss", ""),
        ("ListReplaced", "u", "a(sstxx)"),
        ("LiveFile", "s", "h"),
        ("PathsOnDisk", "as", "ay"),
        ("Pause", "t", ""),
        ("PauseJob", "t", ""),
        ("PrepareRestore", "sass", "t"),
        ("PreviewFile", "ss", "h"),
        ("Prune", "", "t"),
        ("PutBackReplaced", "s", "s"),
        ("RestoreEverything", "ss", "t"),
        ("RestoreFiles", "sasss", "t"),
        ("RestoreInto", "sass", "t"),
        ("Resume", "", ""),
        ("ResumeJob", "t", ""),
        ("SearchFiles", "s", "a(sssxxxxuxb)"),
        ("SetConfig", "ss", ""),
        ("SetupRepo", "ss", ""),
        ("UndoRestore", "t", "t"),
        ("Verify", "", "t"),
    ];
    assert(table@.map_values(
        |m: (&'static str, &'static str, &'static str)| (m.0@, m.1@, m.2@),
    ) =~= method_table());
    table
}

/// The signals, by name, with the signatures of their arguments.
pub open spec fn signal_table() -> Seq<(Seq<char>, Seq<char>)> {
    seq![
        ("BackupProgress"@, "tstt"@),
        ("IndexingProgress"@, "su"@),
        ("JobFinished"@, "tss"@),
        ("RestoreProgress"@, "ttt"@),
        ("StatusChanged"@, "s"@),
    ]
}

/// The signals, by name, with the signatures of their arguments.
pub fn signals() -> (table: Vec<(&'static str, &'static str)>)
    ensures
        table@.map_values(|s: (&'static str, &'static str)| (s.0@, s.1@)) == signal_table(),
{
    let table = vec![
        ("BackupProgress", "tstt"),
        ("IndexingProgress", "su"),
        ("JobFinished", "tss"),
        ("RestoreProgress", "ttt"),
        ("StatusChanged", "s"),
    ];
    assert(table@.map_values(|s: (&'static str, &'static str)| (s.0@, s.1@)) =~= signal_table());
    table
}

} // verus!
