//! Built-in Wine tools launchable in a prefix.

use vstd::prelude::*;

verus! {

/// A built-in Wine tool, with a display label and the argument passed to
/// `proton runinprefix`.
#[derive(Debug, Clone, Copy, PartialEq, Eq)]
pub struct BuiltinTool {
    pub label: &'static str,
    pub arg: &'static str,
}

/// The label and argument of the `k`-th built-in tool: `winecfg`, Task
/// Manager (`taskmgr`), Explorer (`explorer`), Registry Editor (`regedit`).
pub open spec fn builtin_tool_spec(k: int) -> (Seq<char>, Seq<char>) {
    if k == 0 {
        ("winecfg"@, "winecfg"@)
    } else if k == 1 {
        ("Task Manager"@, "taskmgr"@)
    } else if k == 2 {
        ("Explorer"@, "explorer"@)
    } else {
        ("Registry Editor"@, "regedit"@)
    }
}

/// The default set of built-in tools offered for every selected game.
pub fn builtin_tools() -> (res: Vec<BuiltinTool>)
    ensures
        res@.len() == 4,
        forall|k: int|
            0 <= k < 4 ==> ((#[trigger] res@[k]).label@, res@[k].arg@) == builtin_tool_spec(k),
        (res@[0].label@, res@[0].arg@) == ("winecfg"@, "winecfg"@),
        (res@[1].label@, res@[1].arg@) == ("Task Manager"@, "taskmgr"@),
        (res@[2].label@, res@[2].arg@) == ("Explorer"@, "explorer"@),
        (res@[3].label@, res@[3].arg@) == ("Registry Editor"@, "regedit"@),
{
    let mut v: Vec<BuiltinTool> = Vec::new();
    v.push(BuiltinTool { label: "winecfg", arg: "winecfg" });
    v.push(BuiltinTool { label: "Task Manager", arg: "taskmgr" });
    v.push(BuiltinTool { label: "Explorer", arg: "explorer" });
    v.push(BuiltinTool { label: "Registry Editor", arg: "regedit" });
    v
}

} // verus!
