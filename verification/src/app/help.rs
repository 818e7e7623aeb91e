//! The keys that the help window lists.

use crate::app::actions::{alt_accel, alt_text};
use crate::app::titlebar::{accel, accel_text};
use crate::config::profile::text_copy;
use vstd::prelude::*;

verus! {

/// The keys and what they do, as the help window lists them. Ctrl+C interrupts
/// the program in the terminal on every platform; only the clipboard keys follow
/// the Command key of a Mac.
pub open spec fn help_list(macos: bool) -> Seq<(Seq<char>, Seq<char>)> {
    seq![
        (accel_text("Ctrl+Shift+T / W"@, macos), "新建标签 / 关闭窗格"@),
        (accel_text("Ctrl+Shift+D / E"@, macos), "左右 / 上下分屏"@),
        ("Ctrl+Tab / "@ + alt_text("Right"@, macos), "切换标签 / 窗格"@),
        (
            if macos {
                "Cmd+C / Cmd+V"@
            } else {
                "Ctrl+Shift+C / V"@
            },
            "复制 / 粘贴"@,
        ),
        ("Ctrl+C"@, "终端中断"@),
        (alt_text("C"@, macos) + " / "@ + alt_text("R"@, macos), "断开 / 重连当前会话"@),
        (accel_text("Ctrl+Shift+F"@, macos), "全部保留历史查找"@),
        (accel_text("Ctrl+Shift+B / Ctrl+,"@, macos), "导航栏 / 设置"@),
        ("中键 / Shift+鼠标"@, "粘贴 / 强制选择"@),
        (accel_text("Ctrl+Plus / Minus / 0"@, macos), "字号放大 / 缩小 / 重置"@),
    ]
}

/// One line of the help window, as a value.
pub open spec fn help_line(line: (String, &'static str)) -> (Seq<char>, Seq<char>) {
    (line.0@, line.1@)
}

/// The keys and what they do, as the help window lists them.
pub fn help_keys(macos: bool) -> (out: Vec<(String, &'static str)>)
    ensures
        out@.map_values(|line: (String, &'static str)| help_line(line)) == help_list(macos),
{
    let mut panes: String = text_copy("Ctrl+Tab / ");
    panes.append(alt_accel("Right", macos).as_str());
    let mut session: String = alt_accel("C", macos);
    session.append(" / ");
    session.append(alt_accel("R", macos).as_str());
    let clipboard: String = if macos {
        text_copy("Cmd+C / Cmd+V")
    } else {
        text_copy("Ctrl+Shift+C / V")
    };
    let mut out: Vec<(String, &'static str)> = Vec::new();
    out.push((accel("Ctrl+Shift+T / W", macos), "新建标签 / 关闭窗格"));
    out.push((accel("Ctrl+Shift+D / E", macos), "左右 / 上下分屏"));
    out.push((panes, "切换标签 / 窗格"));
    out.push((clipboard, "复制 / 粘贴"));
    out.push((text_copy("Ctrl+C"), "终端中断"));
    out.push((session, "断开 / 重连当前会话"));
    out.push((accel("Ctrl+Shift+F", macos), "全部保留历史查找"));
    out.push((accel("Ctrl+Shift+B / Ctrl+,", macos), "导航栏 / 设置"));
    out.push((text_copy("中键 / Shift+鼠标"), "粘贴 / 强制选择"));
    out.push((accel("Ctrl+Plus / Minus / 0", macos), "字号放大 / 缩小 / 重置"));
    assert(out@.map_values(|line: (String, &'static str)| help_line(line)) =~= help_list(macos));
    out
}

/// What the help says on other machines than a Mac, line by line.
pub proof fn law_what_the_help_says()
    ensures
        ({
            let list = help_list(false);
            &&& list.len() == 10
            &&& list[0] == ("Ctrl+Shift+T / W"@, "新建标签 / 关闭窗格"@)
            &&& list[1] == ("Ctrl+Shift+D / E"@, "左右 / 上下分屏"@)
            &&& list[2] == ("Ctrl+Tab / Alt+Right"@, "切换标签 / 窗格"@)
            &&& list[3] == ("Ctrl+Shift+C / V"@, "复制 / 粘贴"@)
            &&& list[4] == ("Ctrl+C"@, "终端中断"@)
            &&& list[5] == ("Alt+C / Alt+R"@, "断开 / 重连当前会话"@)
            &&& list[6] == ("Ctrl+Shift+F"@, "全部保留历史查找"@)
            &&& list[7] == ("Ctrl+Shift+B / Ctrl+,"@, "导航栏 / 设置"@)
            &&& list[8] == ("中键 / Shift+鼠标"@, "粘贴 / 强制选择"@)
            &&& list[9] == ("Ctrl+Plus / Minus / 0"@, "字号放大 / 缩小 / 重置"@)
        }),
{
    reveal_strlit("Ctrl+Tab / ");
    reveal_strlit("Alt+");
    reveal_strlit("Right");
    reveal_strlit("Ctrl+Tab / Alt+Right");
    reveal_strlit("C");
    reveal_strlit("R");
    reveal_strlit(" / ");
    reveal_strlit("Alt+C / Alt+R");
    assert(help_list(false)[2].0 =~= "Ctrl+Tab / Alt+Right"@);
    assert(help_list(false)[5].0 =~= "Alt+C / Alt+R"@);
}

/// On a Mac the same lines stand in the help, with the keys of a Mac. Interrupting and
/// going to the next tab keep the control key there.
pub proof fn law_the_help_names_the_keys_of_a_mac(i: int)
    requires
        0 <= i < 10,
    ensures
        help_list(true).len() == 10,
        help_list(true)[i].1 == help_list(false)[i].1,
        i < 2 || i == 6 || i == 7 || i == 9 ==> help_list(true)[i].0 == accel_text(
            help_list(false)[i].0,
            true,
        ),
        help_list(true)[8].0 == help_list(false)[8].0,
        help_list(true)[2].0 == "Ctrl+Tab / Option+Right"@,
        help_list(true)[3].0 == "Cmd+C / Cmd+V"@,
        help_list(true)[4].0 == "Ctrl+C"@,
        help_list(true)[5].0 == "Option+C / Option+R"@,
{
    reveal_strlit("Ctrl+Tab / ");
    reveal_strlit("Option+");
    reveal_strlit("Right");
    reveal_strlit("Ctrl+Tab / Option+Right");
    reveal_strlit("C");
    reveal_strlit("R");
    reveal_strlit(" / ");
    reveal_strlit("Option+C / Option+R");
    assert(help_list(true)[2].0 =~= "Ctrl+Tab / Option+Right"@);
    assert(help_list(true)[5].0 =~= "Option+C / Option+R"@);
}

} // verus!
