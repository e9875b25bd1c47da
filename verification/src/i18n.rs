//! Interface texts in English and Chinese, and the choice between them.
use vstd::prelude::*;
use crate::text::{
    chars_eq, chars_of, replace_all, replace_chars, str_eq, string_of, append_chars,
};

verus! {

/// The language that interface texts are shown in.
#[derive(Clone, Copy, Debug, PartialEq, Eq, Structural)]
pub enum Locale {
    En,
    Zh,
}

/// The locale that a stored preference selects; any other preference follows the system.
pub open spec fn resolve_spec(pref: Seq<char>, system: Locale) -> Locale {
    if pref == "en"@ || pref == "en-US"@ || pref == "en-GB"@ {
        Locale::En
    } else if pref == "zh"@ || pref == "zh-CN"@ || pref == "zh-Hans"@ || pref == "zh-TW"@
        || pref == "zh-Hant"@ {
        Locale::Zh
    } else {
        system
    }
}

/// Maps a preference (`en`, `zh`, a regional variant of either, or anything else for
/// "follow the system") to a locale; `system` is the locale that the system display
/// language gives.
pub fn resolve(pref: &str, system: Locale) -> (r: Locale)
    ensures
        r == resolve_spec(pref@, system),
{
    if str_eq(pref, "en") || str_eq(pref, "en-US") || str_eq(pref, "en-GB") {
        Locale::En
    } else if str_eq(pref, "zh") || str_eq(pref, "zh-CN") || str_eq(pref, "zh-Hans") || str_eq(
        pref,
        "zh-TW",
    ) || str_eq(pref, "zh-Hant") {
        Locale::Zh
    } else {
        system
    }
}

/// Stores a new preference in `slot`.
pub fn set_preference(slot: &mut String, pref: &str)
    ensures
        final(slot)@ == pref@,
{
    *slot = String::from_str(pref);
}

/// The locale in effect for the preference held in `slot`.
pub fn current(slot: &str, system: Locale) -> (r: Locale)
    ensures
        r == resolve_spec(slot@, system),
{
    resolve(slot, system)
}

/// Whether `key` names an interface text.
pub open spec fn is_message_key(key: Seq<char>) -> bool {
    key == "overall.ok"@
        || key == "overall.starting"@
        || key == "overall.paused"@
        || key == "overall.circuit"@
        || key == "overall.stopped"@
        || key == "overall.error"@
        || key == "tray.status"@
        || key == "tray.open"@
        || key == "tray.settings"@
        || key == "tray.pause"@
        || key == "tray.pause.15"@
        || key == "tray.pause.60"@
        || key == "tray.pause.240"@
        || key == "tray.pause.1440"@
        || key == "tray.pause.manual"@
        || key == "tray.resume"@
        || key == "tray.quit"@
        || key == "tray.tooltip.ok"@
        || key == "tray.tooltip.starting"@
        || key == "tray.tooltip.pausedUntil"@
        || key == "tray.tooltip.paused"@
        || key == "tray.tooltip.circuit"@
        || key == "tray.tooltip.stopped"@
        || key == "tray.tooltip.error"@
        || key == "notify.wslStopped"@
        || key == "notify.wslCircuit"@
        || key == "notify.diskMountFailed"@
        || key == "notify.pauseExpired"@
        || key == "notify.wslRecovered"@
        || key == "error.wslMissing"@
        || key == "error.selectDistro"@
        || key == "error.distroNotFound"@
        || key == "error.startTimeout"@
        || key == "error.keepAliveExited"@
        || key == "error.partitionMin"@
        || key == "error.unsupportedFs"@
        || key == "error.mountName"@
        || key == "error.duplicateMount"@
}

/// The English text for `key`.
pub open spec fn en_text(key: Seq<char>) -> Option<Seq<char>> {
    if key == "overall.ok"@ {
        Some("Guardian is running"@)
    } else if key == "overall.starting"@ {
        Some("Recovering"@)
    } else if key == "overall.paused"@ {
        Some("Guardian is paused"@)
    } else if key == "overall.circuit"@ {
        Some("Automatic recovery stopped"@)
    } else if key == "overall.stopped"@ {
        Some("WSL is stopped"@)
    } else if key == "overall.error"@ {
        Some("Something needs attention"@)
    } else if key == "tray.status"@ {
        Some("Status: {state}"@)
    } else if key == "tray.open"@ {
        Some("Open dashboard"@)
    } else if key == "tray.settings"@ {
        Some("Settings"@)
    } else if key == "tray.pause"@ {
        Some("Pause guardian"@)
    } else if key == "tray.pause.15"@ {
        Some("15 minutes"@)
    } else if key == "tray.pause.60"@ {
        Some("1 hour"@)
    } else if key == "tray.pause.240"@ {
        Some("4 hours"@)
    } else if key == "tray.pause.1440"@ {
        Some("24 hours"@)
    } else if key == "tray.pause.manual"@ {
        Some("Until I resume"@)
    } else if key == "tray.resume"@ {
        Some("Resume guardian"@)
    } else if key == "tray.quit"@ {
        Some("Quit"@)
    } else if key == "tray.tooltip.ok"@ {
        Some("WSL Keeper · running · {count} mounted"@)
    } else if key == "tray.tooltip.starting"@ {
        Some("WSL Keeper · recovering..."@)
    } else if key == "tray.tooltip.pausedUntil"@ {
        Some("WSL Keeper · paused until {time}"@)
    } else if key == "tray.tooltip.paused"@ {
        Some("WSL Keeper · paused"@)
    } else if key == "tray.tooltip.circuit"@ {
        Some("WSL Keeper · mount failed (click to view)"@)
    } else if key == "tray.tooltip.stopped"@ {
        Some("WSL Keeper · WSL is stopped"@)
    } else if key == "tray.tooltip.error"@ {
        Some("WSL Keeper · error (click to view)"@)
    } else if key == "notify.wslStopped"@ {
        Some("{distro} is not running. Starting it now."@)
    } else if key == "notify.wslCircuit"@ {
        Some("{distro} failed to start repeatedly. Auto-start is paused until you retry."@)
    } else if key == "notify.diskMountFailed"@ {
        Some("{disk} failed to mount repeatedly. Open the app to retry."@)
    } else if key == "notify.pauseExpired"@ {
        Some("Pause ended. Guardian is running again."@)
    } else if key == "notify.wslRecovered"@ {
        Some("{distro} is running again."@)
    } else if key == "error.wslMissing"@ {
        Some("wsl.exe was not found. Install Windows Subsystem for Linux."@)
    } else if key == "error.selectDistro"@ {
        Some("Select a WSL distro in Settings."@)
    } else if key == "error.distroNotFound"@ {
        Some("Distro '{name}' was not found. Pick an installed distro in Settings."@)
    } else if key == "error.startTimeout"@ {
        Some("Timed out starting distro"@)
    } else if key == "error.keepAliveExited"@ {
        Some("Keep-alive exited"@)
    } else if key == "error.partitionMin"@ {
        Some("Partition numbers start at 1"@)
    } else if key == "error.unsupportedFs"@ {
        Some("Unsupported filesystem type: {fs}"@)
    } else if key == "error.mountName"@ {
        Some("Mount name '{name}' must be 1-32 chars of letters, digits, _ or -"@)
    } else if key == "error.duplicateMount"@ {
        Some("Duplicate mount name '{name}'"@)
    } else {
        None
    }
}

/// The English text for `key`, if there is one.
pub fn en(key: &str) -> (r: Option<&'static str>)
    ensures
        match r {
            Some(t) => en_text(key@) == Some(t@),
            None => en_text(key@) is None,
        },
{
    let k = chars_of(key);
    if chars_eq(&k, &chars_of("overall.ok")) {
        Some("Guardian is running")
    } else if chars_eq(&k, &chars_of("overall.starting")) {
        Some("Recovering")
    } else if chars_eq(&k, &chars_of("overall.paused")) {
        Some("Guardian is paused")
    } else if chars_eq(&k, &chars_of("overall.circuit")) {
        Some("Automatic recovery stopped")
    } else if chars_eq(&k, &chars_of("overall.stopped")) {
        Some("WSL is stopped")
    } else if chars_eq(&k, &chars_of("overall.error")) {
        Some("Something needs attention")
    } else if chars_eq(&k, &chars_of("tray.status")) {
        Some("Status: {state}")
    } else if chars_eq(&k, &chars_of("tray.open")) {
        Some("Open dashboard")
    } else if chars_eq(&k, &chars_of("tray.settings")) {
        Some("Settings")
    } else if chars_eq(&k, &chars_of("tray.pause")) {
        Some("Pause guardian")
    } else if chars_eq(&k, &chars_of("tray.pause.15")) {
        Some("15 minutes")
    } else if chars_eq(&k, &chars_of("tray.pause.60")) {
        Some("1 hour")
    } else if chars_eq(&k, &chars_of("tray.pause.240")) {
        Some("4 hours")
    } else if chars_eq(&k, &chars_of("tray.pause.1440")) {
        Some("24 hours")
    } else if chars_eq(&k, &chars_of("tray.pause.manual")) {
        Some("Until I resume")
    } else if chars_eq(&k, &chars_of("tray.resume")) {
        Some("Resume guardian")
    } else if chars_eq(&k, &chars_of("tray.quit")) {
        Some("Quit")
    } else if chars_eq(&k, &chars_of("tray.tooltip.ok")) {
        Some("WSL Keeper · running · {count} mounted")
    } else if chars_eq(&k, &chars_of("tray.tooltip.starting")) {
        Some("WSL Keeper · recovering...")
    } else if chars_eq(&k, &chars_of("tray.tooltip.pausedUntil")) {
        Some("WSL Keeper · paused until {time}")
    } else if chars_eq(&k, &chars_of("tray.tooltip.paused")) {
        Some("WSL Keeper · paused")
    } else if chars_eq(&k, &chars_of("tray.tooltip.circuit")) {
        Some("WSL Keeper · mount failed (click to view)")
    } else if chars_eq(&k, &chars_of("tray.tooltip.stopped")) {
        Some("WSL Keeper · WSL is stopped")
    } else if chars_eq(&k, &chars_of("tray.tooltip.error")) {
        Some("WSL Keeper · error (click to view)")
    } else if chars_eq(&k, &chars_of("notify.wslStopped")) {
        Some("{distro} is not running. Starting it now.")
    } else if chars_eq(&k, &chars_of("notify.wslCircuit")) {
        Some("{distro} failed to start repeatedly. Auto-start is paused until you retry.")
    } else if chars_eq(&k, &chars_of("notify.diskMountFailed")) {
        Some("{disk} failed to mount repeatedly. Open the app to retry.")
    } else if chars_eq(&k, &chars_of("notify.pauseExpired")) {
        Some("Pause ended. Guardian is running again.")
    } else if chars_eq(&k, &chars_of("notify.wslRecovered")) {
        Some("{distro} is running again.")
    } else if chars_eq(&k, &chars_of("error.wslMissing")) {
        Some("wsl.exe was not found. Install Windows Subsystem for Linux.")
    } else if chars_eq(&k, &chars_of("error.selectDistro")) {
        Some("Select a WSL distro in Settings.")
    } else if chars_eq(&k, &chars_of("error.distroNotFound")) {
        Some("Distro '{name}' was not found. Pick an installed distro in Settings.")
    } else if chars_eq(&k, &chars_of("error.startTimeout")) {
        Some("Timed out starting distro")
    } else if chars_eq(&k, &chars_of("error.keepAliveExited")) {
        Some("Keep-alive exited")
    } else if chars_eq(&k, &chars_of("error.partitionMin")) {
        Some("Partition numbers start at 1")
    } else if chars_eq(&k, &chars_of("error.unsupportedFs")) {
        Some("Unsupported filesystem type: {fs}")
    } else if chars_eq(&k, &chars_of("error.mountName")) {
        Some("Mount name '{name}' must be 1-32 chars of letters, digits, _ or -")
    } else if chars_eq(&k, &chars_of("error.duplicateMount")) {
        Some("Duplicate mount name '{name}'")
    } else {
        None
    }
}

/// The Chinese text for `key`.
pub open spec fn zh_text(key: Seq<char>) -> Option<Seq<char>> {
    if key == "overall.ok"@ {
        Some("守护进程运行中"@)
    } else if key == "overall.starting"@ {
        Some("正在恢复"@)
    } else if key == "overall.paused"@ {
        Some("守护进程已暂停"@)
    } else if key == "overall.circuit"@ {
        Some("已停止自动恢复"@)
    } else if key == "overall.stopped"@ {
        Some("WSL 已停止"@)
    } else if key == "overall.error"@ {
        Some("需要处理"@)
    } else if key == "tray.status"@ {
        Some("状态：{state}"@)
    } else if key == "tray.open"@ {
        Some("打开概览"@)
    } else if key == "tray.settings"@ {
        Some("设置"@)
    } else if key == "tray.pause"@ {
        Some("暂停守护"@)
    } else if key == "tray.pause.15"@ {
        Some("15 分钟"@)
    } else if key == "tray.pause.60"@ {
        Some("1 小时"@)
    } else if key == "tray.pause.240"@ {
        Some("4 小时"@)
    } else if key == "tray.pause.1440"@ {
        Some("24 小时"@)
    } else if key == "tray.pause.manual"@ {
        Some("直到我恢复"@)
    } else if key == "tray.resume"@ {
        Some("恢复守护"@)
    } else if key == "tray.quit"@ {
        Some("退出"@)
    } else if key == "tray.tooltip.ok"@ {
        Some("WSL Keeper · 运行中 · 已挂载 {count} 块磁盘"@)
    } else if key == "tray.tooltip.starting"@ {
        Some("WSL Keeper · 正在恢复…"@)
    } else if key == "tray.tooltip.pausedUntil"@ {
        Some("WSL Keeper · 暂停至 {time}"@)
    } else if key == "tray.tooltip.paused"@ {
        Some("WSL Keeper · 已暂停"@)
    } else if key == "tray.tooltip.circuit"@ {
        Some("WSL Keeper · 挂载失败（点击查看）"@)
    } else if key == "tray.tooltip.stopped"@ {
        Some("WSL Keeper · WSL 已停止"@)
    } else if key == "tray.tooltip.error"@ {
        Some("WSL Keeper · 出错（点击查看）"@)
    } else if key == "notify.wslStopped"@ {
        Some("{distro} 未在运行，正在启动。"@)
    } else if key == "notify.wslCircuit"@ {
        Some("{distro} 多次启动失败，已暂停自动启动，请手动重试。"@)
    } else if key == "notify.diskMountFailed"@ {
        Some("{disk} 多次挂载失败，请打开应用重试。"@)
    } else if key == "notify.pauseExpired"@ {
        Some("暂停已结束，守护进程已重新运行。"@)
    } else if key == "notify.wslRecovered"@ {
        Some("{distro} 已重新运行。"@)
    } else if key == "error.wslMissing"@ {
        Some("未找到 wsl.exe，请先安装 Windows Subsystem for Linux。"@)
    } else if key == "error.selectDistro"@ {
        Some("请在设置中选择 WSL 发行版。"@)
    } else if key == "error.distroNotFound"@ {
        Some("未找到发行版“{name}”，请在设置中选择已安装的发行版。"@)
    } else if key == "error.startTimeout"@ {
        Some("启动发行版超时"@)
    } else if key == "error.keepAliveExited"@ {
        Some("保活进程已退出"@)
    } else if key == "error.partitionMin"@ {
        Some("分区号从 1 开始"@)
    } else if key == "error.unsupportedFs"@ {
        Some("不支持的文件系统类型：{fs}"@)
    } else if key == "error.mountName"@ {
        Some("挂载名“{name}”须为 1–32 位字母、数字、_ 或 -"@)
    } else if key == "error.duplicateMount"@ {
        Some("挂载名“{name}”重复"@)
    } else {
        None
    }
}

/// The Chinese text for `key`, if there is one.
pub fn zh(key: &str) -> (r: Option<&'static str>)
    ensures
        match r {
            Some(t) => zh_text(key@) == Some(t@),
            None => zh_text(key@) is None,
        },
{
    let k = chars_of(key);
    if chars_eq(&k, &chars_of("overall.ok")) {
        Some("守护进程运行中")
    } else if chars_eq(&k, &chars_of("overall.starting")) {
        Some("正在恢复")
    } else if chars_eq(&k, &chars_of("overall.paused")) {
        Some("守护进程已暂停")
    } else if chars_eq(&k, &chars_of("overall.circuit")) {
        Some("已停止自动恢复")
    } else if chars_eq(&k, &chars_of("overall.stopped")) {
        Some("WSL 已停止")
    } else if chars_eq(&k, &chars_of("overall.error")) {
        Some("需要处理")
    } else if chars_eq(&k, &chars_of("tray.status")) {
        Some("状态：{state}")
    } else if chars_eq(&k, &chars_of("tray.open")) {
        Some("打开概览")
    } else if chars_eq(&k, &chars_of("tray.settings")) {
        Some("设置")
    } else if chars_eq(&k, &chars_of("tray.pause")) {
        Some("暂停守护")
    } else if chars_eq(&k, &chars_of("tray.pause.15")) {
        Some("15 分钟")
    } else if chars_eq(&k, &chars_of("tray.pause.60")) {
        Some("1 小时")
    } else if chars_eq(&k, &chars_of("tray.pause.240")) {
        Some("4 小时")
    } else if chars_eq(&k, &chars_of("tray.pause.1440")) {
        Some("24 小时")
    } else if chars_eq(&k, &chars_of("tray.pause.manual")) {
        Some("直到我恢复")
    } else if chars_eq(&k, &chars_of("tray.resume")) {
        Some("恢复守护")
    } else if chars_eq(&k, &chars_of("tray.quit")) {
        Some("退出")
    } else if chars_eq(&k, &chars_of("tray.tooltip.ok")) {
        Some("WSL Keeper · 运行中 · 已挂载 {count} 块磁盘")
    } else if chars_eq(&k, &chars_of("tray.tooltip.starting")) {
        Some("WSL Keeper · 正在恢复…")
    } else if chars_eq(&k, &chars_of("tray.tooltip.pausedUntil")) {
        Some("WSL Keeper · 暂停至 {time}")
    } else if chars_eq(&k, &chars_of("tray.tooltip.paused")) {
        Some("WSL Keeper · 已暂停")
    } else if chars_eq(&k, &chars_of("tray.tooltip.circuit")) {
        Some("WSL Keeper · 挂载失败（点击查看）")
    } else if chars_eq(&k, &chars_of("tray.tooltip.stopped")) {
        Some("WSL Keeper · WSL 已停止")
    } else if chars_eq(&k, &chars_of("tray.tooltip.error")) {
        Some("WSL Keeper · 出错（点击查看）")
    } else if chars_eq(&k, &chars_of("notify.wslStopped")) {
        Some("{distro} 未在运行，正在启动。")
    } else if chars_eq(&k, &chars_of("notify.wslCircuit")) {
        Some("{distro} 多次启动失败，已暂停自动启动，请手动重试。")
    } else if chars_eq(&k, &chars_of("notify.diskMountFailed")) {
        Some("{disk} 多次挂载失败，请打开应用重试。")
    } else if chars_eq(&k, &chars_of("notify.pauseExpired")) {
        Some("暂停已结束，守护进程已重新运行。")
    } else if chars_eq(&k, &chars_of("notify.wslRecovered")) {
        Some("{distro} 已重新运行。")
    } else if chars_eq(&k, &chars_of("error.wslMissing")) {
        Some("未找到 wsl.exe，请先安装 Windows Subsystem for Linux。")
    } else if chars_eq(&k, &chars_of("error.selectDistro")) {
        Some("请在设置中选择 WSL 发行版。")
    } else if chars_eq(&k, &chars_of("error.distroNotFound")) {
        Some("未找到发行版“{name}”，请在设置中选择已安装的发行版。")
    } else if chars_eq(&k, &chars_of("error.startTimeout")) {
        Some("启动发行版超时")
    } else if chars_eq(&k, &chars_of("error.keepAliveExited")) {
        Some("保活进程已退出")
    } else if chars_eq(&k, &chars_of("error.partitionMin")) {
        Some("分区号从 1 开始")
    } else if chars_eq(&k, &chars_of("error.unsupportedFs")) {
        Some("不支持的文件系统类型：{fs}")
    } else if chars_eq(&k, &chars_of("error.mountName")) {
        Some("挂载名“{name}”须为 1–32 位字母、数字、_ 或 -")
    } else if chars_eq(&k, &chars_of("error.duplicateMount")) {
        Some("挂载名“{name}”重复")
    } else {
        None
    }
}

/// The text shown for `key`: the Chinese text falls back to the English one, and a key
/// without any text is shown as itself.
pub open spec fn t_spec(locale: Locale, key: Seq<char>) -> Seq<char> {
    match locale {
        Locale::Zh => match zh_text(key) {
            Some(x) => x,
            None => match en_text(key) {
                Some(x) => x,
                None => key,
            },
        },
        Locale::En => match en_text(key) {
            Some(x) => x,
            None => key,
        },
    }
}

/// The text for `key` in `locale`.
pub fn t(locale: Locale, key: &'static str) -> (r: &'static str)
    ensures
        r@ == t_spec(locale, key@),
{
    match locale {
        Locale::Zh => match zh(key) {
            Some(x) => x,
            None => match en(key) {
                Some(x) => x,
                None => key,
            },
        },
        Locale::En => match en(key) {
            Some(x) => x,
            None => key,
        },
    }
}

/// The placeholder `{name}` that `tf` fills in.
pub open spec fn placeholder(name: Seq<char>) -> Seq<char> {
    seq!['{'] + name + seq!['}']
}

/// The views of name/value pairs.
pub open spec fn pair_views(pairs: Seq<(&str, &str)>) -> Seq<(Seq<char>, Seq<char>)> {
    pairs.map_values(|p: (&str, &str)| (p.0@, p.1@))
}

/// `text` with the placeholders of `pairs` filled in, pair after pair.
pub open spec fn fill(text: Seq<char>, pairs: Seq<(Seq<char>, Seq<char>)>) -> Seq<char>
    decreases pairs.len(),
{
    if pairs.len() == 0 {
        text
    } else {
        replace_all(
            fill(text, pairs.drop_last()),
            placeholder(pairs.last().0),
            pairs.last().1,
        )
    }
}

/// The text for `key` in `locale`, with each `{name}` replaced by its value.
pub fn tf(locale: Locale, key: &'static str, pairs: &[(&str, &str)]) -> (r: String)
    ensures
        r@ == fill(t_spec(locale, key@), pair_views(pairs@)),
{
    let mut text = chars_of(t(locale, key));
    let mut i: usize = 0;
    while i < pairs.len()
        invariant
            i <= pairs.len(),
            text@ == fill(t_spec(locale, key@), pair_views(pairs@).take(i as int)),
        decreases pairs.len() - i,
    {
        let (name, value) = pairs[i];
        let mut pat: Vec<char> = Vec::new();
        pat.push('{');
        append_chars(&mut pat, &chars_of(name));
        pat.push('}');
        assert(pat@ =~= placeholder(name@));
        text = replace_chars(&text, &pat, &chars_of(value));
        assert(pair_views(pairs@).take(i + 1).drop_last() =~= pair_views(pairs@).take(i as int));
        assert(pair_views(pairs@).take(i + 1).last() == (name@, value@));
        i += 1;
    }
    assert(pair_views(pairs@).take(pairs.len() as int) =~= pair_views(pairs@));
    string_of(&text)
}

/// Every interface text has both an English and a Chinese version, so a Chinese lookup
/// never falls back to English for a known key.
pub proof fn lemma_tables_cover_same_keys(key: Seq<char>)
    ensures
        en_text(key) is Some <==> is_message_key(key),
        zh_text(key) is Some <==> is_message_key(key),
{
}


/// The names inside braces in `s` from position `i` on, in order; `cur` is the name being
/// read after a `{`.
pub open spec fn brace_scan(s: Seq<char>, i: nat, cur: Option<Seq<char>>) -> Seq<Seq<char>>
    decreases s.len() - i,
{
    if i >= s.len() {
        Seq::empty()
    } else {
        let c = s[i as int];
        match cur {
            None => if c == '{' {
                brace_scan(s, i + 1, Some(Seq::empty()))
            } else {
                brace_scan(s, i + 1, None)
            },
            Some(n) => if c == '}' {
                seq![n] + brace_scan(s, i + 1, None)
            } else if c == '{' {
                brace_scan(s, i + 1, Some(Seq::empty()))
            } else {
                brace_scan(s, i + 1, Some(n.push(c)))
            },
        }
    }
}

/// The placeholder names of a text: each `{name}` in it, in order.
pub open spec fn placeholder_names(s: Seq<char>) -> Seq<Seq<char>> {
    brace_scan(s, 0, None)
}

/// Scanning a stretch without braces only extends the name being read, if any.
proof fn lemma_scan_plain(s: Seq<char>, i: nat, j: nat, cur: Option<Seq<char>>)
    requires
        i <= j <= s.len(),
        forall|k: int| i <= k < j ==> #[trigger] s[k] != '{' && s[k] != '}',
    ensures
        brace_scan(s, i, cur) == brace_scan(s, j, match cur {
            None => None,
            Some(n) => Some(n + s.subrange(i as int, j as int)),
        }),
    decreases j - i,
{
    if i < j {
        let next = match cur {
            None => None,
            Some(n) => Some(n.push(s[i as int])),
        };
        lemma_scan_plain(s, i + 1, j, next);
        match cur {
            Some(n) => {
                assert(n.push(s[i as int]) + s.subrange(i + 1 as int, j as int) =~= n + s.subrange(i as int, j as int));
            },
            None => {},
        }
    } else {
        match cur {
            Some(n) => {
                assert(n + s.subrange(i as int, j as int) =~= n);
            },
            None => {},
        }
    }
}

/// A text without braces has no placeholders.
proof fn lemma_names_none(s: Seq<char>)
    requires
        forall|k: int| 0 <= k < s.len() ==> #[trigger] s[k] != '{' && s[k] != '}',
    ensures
        placeholder_names(s) == Seq::<Seq<char>>::empty(),
{
    lemma_scan_plain(s, 0, s.len(), None);
}

/// A text with one pair of braces, at `p` and `q`, has the one placeholder between them.
proof fn lemma_names_one(s: Seq<char>, p: nat, q: nat)
    requires
        p < q < s.len(),
        s[p as int] == '{',
        s[q as int] == '}',
        forall|k: int| 0 <= k < s.len() && k != p && k != q ==> #[trigger] s[k] != '{' && s[k] != '}',
    ensures
        placeholder_names(s) == seq![s.subrange(p as int + 1, q as int)],
{
    lemma_scan_plain(s, 0, p, None);
    lemma_scan_plain(s, p + 1, q, Some(Seq::empty()));
    lemma_scan_plain(s, q + 1, s.len(), None);
    assert(Seq::<char>::empty() + s.subrange(p as int + 1, q as int) =~= s.subrange(p as int + 1, q as int));
    assert(seq![s.subrange(p as int + 1, q as int)] + Seq::<Seq<char>>::empty() =~= seq![s.subrange(p as int + 1, q as int)]);
}

/// For every message key the English and the Chinese text hold the same placeholders, in
/// the same order, so `tf` fills the same names in either locale.
pub proof fn lemma_tables_share_placeholders(key: Seq<char>)
    ensures
        en_text(key) is Some <==> zh_text(key) is Some,
        en_text(key) is Some ==> placeholder_names(en_text(key)->0) == placeholder_names(zh_text(key)->0),
{
    assert(placeholder_names("Guardian is running"@) == placeholder_names("守护进程运行中"@)) by {
        reveal_strlit("Guardian is running");
        reveal_strlit("守护进程运行中");
        lemma_names_none("Guardian is running"@);
        lemma_names_none("守护进程运行中"@);
    }
    assert(placeholder_names("Recovering"@) == placeholder_names("正在恢复"@)) by {
        reveal_strlit("Recovering");
        reveal_strlit("正在恢复");
        lemma_names_none("Recovering"@);
        lemma_names_none("正在恢复"@);
    }
    assert(placeholder_names("Guardian is paused"@) == placeholder_names("守护进程已暂停"@)) by {
        reveal_strlit("Guardian is paused");
        reveal_strlit("守护进程已暂停");
        lemma_names_none("Guardian is paused"@);
        lemma_names_none("守护进程已暂停"@);
    }
    assert(placeholder_names("Automatic recovery stopped"@) == placeholder_names("已停止自动恢复"@)) by {
        reveal_strlit("Automatic recovery stopped");
        reveal_strlit("已停止自动恢复");
        lemma_names_none("Automatic recovery stopped"@);
        lemma_names_none("已停止自动恢复"@);
    }
    assert(placeholder_names("WSL is stopped"@) == placeholder_names("WSL 已停止"@)) by {
        reveal_strlit("WSL is stopped");
        reveal_strlit("WSL 已停止");
        lemma_names_none("WSL is stopped"@);
        lemma_names_none("WSL 已停止"@);
    }
    assert(placeholder_names("Something needs attention"@) == placeholder_names("需要处理"@)) by {
        reveal_strlit("Something needs attention");
        reveal_strlit("需要处理");
        lemma_names_none("Something needs attention"@);
        lemma_names_none("需要处理"@);
    }
    assert(placeholder_names("Status: {state}"@) == placeholder_names("状态：{state}"@)) by {
        reveal_strlit("Status: {state}");
        reveal_strlit("状态：{state}");
        lemma_names_one("Status: {state}"@, 8, 14);
        lemma_names_one("状态：{state}"@, 3, 9);
        assert("Status: {state}"@.subrange(9, 14) =~= "状态：{state}"@.subrange(4, 9));
    }
    assert(placeholder_names("Open dashboard"@) == placeholder_names("打开概览"@)) by {
        reveal_strlit("Open dashboard");
        reveal_strlit("打开概览");
        lemma_names_none("Open dashboard"@);
        lemma_names_none("打开概览"@);
    }
    assert(placeholder_names("Settings"@) == placeholder_names("设置"@)) by {
        reveal_strlit("Settings");
        reveal_strlit("设置");
        lemma_names_none("Settings"@);
        lemma_names_none("设置"@);
    }
    assert(placeholder_names("Pause guardian"@) == placeholder_names("暂停守护"@)) by {
        reveal_strlit("Pause guardian");
        reveal_strlit("暂停守护");
        lemma_names_none("Pause guardian"@);
        lemma_names_none("暂停守护"@);
    }
    assert(placeholder_names("15 minutes"@) == placeholder_names("15 分钟"@)) by {
        reveal_strlit("15 minutes");
        reveal_strlit("15 分钟");
        lemma_names_none("15 minutes"@);
        lemma_names_none("15 分钟"@);
    }
    assert(placeholder_names("1 hour"@) == placeholder_names("1 小时"@)) by {
        reveal_strlit("1 hour");
        reveal_strlit("1 小时");
        lemma_names_none("1 hour"@);
        lemma_names_none("1 小时"@);
    }
    assert(placeholder_names("4 hours"@) == placeholder_names("4 小时"@)) by {
        reveal_strlit("4 hours");
        reveal_strlit("4 小时");
        lemma_names_none("4 hours"@);
        lemma_names_none("4 小时"@);
    }
    assert(placeholder_names("24 hours"@) == placeholder_names("24 小时"@)) by {
        reveal_strlit("24 hours");
        reveal_strlit("24 小时");
        lemma_names_none("24 hours"@);
        lemma_names_none("24 小时"@);
    }
    assert(placeholder_names("Until I resume"@) == placeholder_names("直到我恢复"@)) by {
        reveal_strlit("Until I resume");
        reveal_strlit("直到我恢复");
        lemma_names_none("Until I resume"@);
        lemma_names_none("直到我恢复"@);
    }
    assert(placeholder_names("Resume guardian"@) == placeholder_names("恢复守护"@)) by {
        reveal_strlit("Resume guardian");
        reveal_strlit("恢复守护");
        lemma_names_none("Resume guardian"@);
        lemma_names_none("恢复守护"@);
    }
    assert(placeholder_names("Quit"@) == placeholder_names("退出"@)) by {
        reveal_strlit("Quit");
        reveal_strlit("退出");
        lemma_names_none("Quit"@);
        lemma_names_none("退出"@);
    }
    assert(placeholder_names("WSL Keeper · running · {count} mounted"@) == placeholder_names("WSL Keeper · 运行中 · 已挂载 {count} 块磁盘"@)) by {
        reveal_strlit("WSL Keeper · running · {count} mounted");
        reveal_strlit("WSL Keeper · 运行中 · 已挂载 {count} 块磁盘");
        lemma_names_one("WSL Keeper · running · {count} mounted"@, 23, 29);
        lemma_names_one("WSL Keeper · 运行中 · 已挂载 {count} 块磁盘"@, 23, 29);
        assert("WSL Keeper · running · {count} mounted"@.subrange(24, 29) =~= "WSL Keeper · 运行中 · 已挂载 {count} 块磁盘"@.subrange(24, 29));
    }
    assert(placeholder_names("WSL Keeper · recovering..."@) == placeholder_names("WSL Keeper · 正在恢复…"@)) by {
        reveal_strlit("WSL Keeper · recovering...");
        reveal_strlit("WSL Keeper · 正在恢复…");
        lemma_names_none("WSL Keeper · recovering..."@);
        lemma_names_none("WSL Keeper · 正在恢复…"@);
    }
    assert(placeholder_names("WSL Keeper · paused until {time}"@) == placeholder_names("WSL Keeper · 暂停至 {time}"@)) by {
        reveal_strlit("WSL Keeper · paused until {time}");
        reveal_strlit("WSL Keeper · 暂停至 {time}");
        lemma_names_one("WSL Keeper · paused until {time}"@, 26, 31);
        lemma_names_one("WSL Keeper · 暂停至 {time}"@, 17, 22);
        assert("WSL Keeper · paused until {time}"@.subrange(27, 31) =~= "WSL Keeper · 暂停至 {time}"@.subrange(18, 22));
    }
    assert(placeholder_names("WSL Keeper · paused"@) == placeholder_names("WSL Keeper · 已暂停"@)) by {
        reveal_strlit("WSL Keeper · paused");
        reveal_strlit("WSL Keeper · 已暂停");
        lemma_names_none("WSL Keeper · paused"@);
        lemma_names_none("WSL Keeper · 已暂停"@);
    }
    assert(placeholder_names("WSL Keeper · mount failed (click to view)"@) == placeholder_names("WSL Keeper · 挂载失败（点击查看）"@)) by {
        reveal_strlit("WSL Keeper · mount failed (click to view)");
        reveal_strlit("WSL Keeper · 挂载失败（点击查看）");
        lemma_names_none("WSL Keeper · mount failed (click to view)"@);
        lemma_names_none("WSL Keeper · 挂载失败（点击查看）"@);
    }
    assert(placeholder_names("WSL Keeper · WSL is stopped"@) == placeholder_names("WSL Keeper · WSL 已停止"@)) by {
        reveal_strlit("WSL Keeper · WSL is stopped");
        reveal_strlit("WSL Keeper · WSL 已停止");
        lemma_names_none("WSL Keeper · WSL is stopped"@);
        lemma_names_none("WSL Keeper · WSL 已停止"@);
    }
    assert(placeholder_names("WSL Keeper · error (click to view)"@) == placeholder_names("WSL Keeper · 出错（点击查看）"@)) by {
        reveal_strlit("WSL Keeper · error (click to view)");
        reveal_strlit("WSL Keeper · 出错（点击查看）");
        lemma_names_none("WSL Keeper · error (click to view)"@);
        lemma_names_none("WSL Keeper · 出错（点击查看）"@);
    }
    assert(placeholder_names("{distro} is not running. Starting it now."@) == placeholder_names("{distro} 未在运行，正在启动。"@)) by {
        reveal_strlit("{distro} is not running. Starting it now.");
        reveal_strlit("{distro} 未在运行，正在启动。");
        lemma_names_one("{distro} is not running. Starting it now."@, 0, 7);
        lemma_names_one("{distro} 未在运行，正在启动。"@, 0, 7);
        assert("{distro} is not running. Starting it now."@.subrange(1, 7) =~= "{distro} 未在运行，正在启动。"@.subrange(1, 7));
    }
    assert(placeholder_names("{distro} failed to start repeatedly. Auto-start is paused until you retry."@) == placeholder_names("{distro} 多次启动失败，已暂停自动启动，请手动重试。"@)) by {
        reveal_strlit("{distro} failed to start repeatedly. Auto-start is paused until you retry.");
        reveal_strlit("{distro} 多次启动失败，已暂停自动启动，请手动重试。");
        lemma_names_one("{distro} failed to start repeatedly. Auto-start is paused until you retry."@, 0, 7);
        lemma_names_one("{distro} 多次启动失败，已暂停自动启动，请手动重试。"@, 0, 7);
        assert("{distro} failed to start repeatedly. Auto-start is paused until you retry."@.subrange(1, 7) =~= "{distro} 多次启动失败，已暂停自动启动，请手动重试。"@.subrange(1, 7));
    }
    assert(placeholder_names("{disk} failed to mount repeatedly. Open the app to retry."@) == placeholder_names("{disk} 多次挂载失败，请打开应用重试。"@)) by {
        reveal_strlit("{disk} failed to mount repeatedly. Open the app to retry.");
        reveal_strlit("{disk} 多次挂载失败，请打开应用重试。");
        lemma_names_one("{disk} failed to mount repeatedly. Open the app to retry."@, 0, 5);
        lemma_names_one("{disk} 多次挂载失败，请打开应用重试。"@, 0, 5);
        assert("{disk} failed to mount repeatedly. Open the app to retry."@.subrange(1, 5) =~= "{disk} 多次挂载失败，请打开应用重试。"@.subrange(1, 5));
    }
    assert(placeholder_names("Pause ended. Guardian is running again."@) == placeholder_names("暂停已结束，守护进程已重新运行。"@)) by {
        reveal_strlit("Pause ended. Guardian is running again.");
        reveal_strlit("暂停已结束，守护进程已重新运行。");
        lemma_names_none("Pause ended. Guardian is running again."@);
        lemma_names_none("暂停已结束，守护进程已重新运行。"@);
    }
    assert(placeholder_names("{distro} is running again."@) == placeholder_names("{distro} 已重新运行。"@)) by {
        reveal_strlit("{distro} is running again.");
        reveal_strlit("{distro} 已重新运行。");
        lemma_names_one("{distro} is running again."@, 0, 7);
        lemma_names_one("{distro} 已重新运行。"@, 0, 7);
        assert("{distro} is running again."@.subrange(1, 7) =~= "{distro} 已重新运行。"@.subrange(1, 7));
    }
    assert(placeholder_names("wsl.exe was not found. Install Windows Subsystem for Linux."@) == placeholder_names("未找到 wsl.exe，请先安装 Windows Subsystem for Linux。"@)) by {
        reveal_strlit("wsl.exe was not found. Install Windows Subsystem for Linux.");
        reveal_strlit("未找到 wsl.exe，请先安装 Windows Subsystem for Linux。");
        lemma_names_none("wsl.exe was not found. Install Windows Subsystem for Linux."@);
        lemma_names_none("未找到 wsl.exe，请先安装 Windows Subsystem for Linux。"@);
    }
    assert(placeholder_names("Select a WSL distro in Settings."@) == placeholder_names("请在设置中选择 WSL 发行版。"@)) by {
        reveal_strlit("Select a WSL distro in Settings.");
        reveal_strlit("请在设置中选择 WSL 发行版。");
        lemma_names_none("Select a WSL distro in Settings."@);
        lemma_names_none("请在设置中选择 WSL 发行版。"@);
    }
    assert(placeholder_names("Distro '{name}' was not found. Pick an installed distro in Settings."@) == placeholder_names("未找到发行版“{name}”，请在设置中选择已安装的发行版。"@)) by {
        reveal_strlit("Distro '{name}' was not found. Pick an installed distro in Settings.");
        reveal_strlit("未找到发行版“{name}”，请在设置中选择已安装的发行版。");
        lemma_names_one("Distro '{name}' was not found. Pick an installed distro in Settings."@, 8, 13);
        lemma_names_one("未找到发行版“{name}”，请在设置中选择已安装的发行版。"@, 7, 12);
        assert("Distro '{name}' was not found. Pick an installed distro in Settings."@.subrange(9, 13) =~= "未找到发行版“{name}”，请在设置中选择已安装的发行版。"@.subrange(8, 12));
    }
    assert(placeholder_names("Timed out starting distro"@) == placeholder_names("启动发行版超时"@)) by {
        reveal_strlit("Timed out starting distro");
        reveal_strlit("启动发行版超时");
        lemma_names_none("Timed out starting distro"@);
        lemma_names_none("启动发行版超时"@);
    }
    assert(placeholder_names("Keep-alive exited"@) == placeholder_names("保活进程已退出"@)) by {
        reveal_strlit("Keep-alive exited");
        reveal_strlit("保活进程已退出");
        lemma_names_none("Keep-alive exited"@);
        lemma_names_none("保活进程已退出"@);
    }
    assert(placeholder_names("Partition numbers start at 1"@) == placeholder_names("分区号从 1 开始"@)) by {
        reveal_strlit("Partition numbers start at 1");
        reveal_strlit("分区号从 1 开始");
        lemma_names_none("Partition numbers start at 1"@);
        lemma_names_none("分区号从 1 开始"@);
    }
    assert(placeholder_names("Unsupported filesystem type: {fs}"@) == placeholder_names("不支持的文件系统类型：{fs}"@)) by {
        reveal_strlit("Unsupported filesystem type: {fs}");
        reveal_strlit("不支持的文件系统类型：{fs}");
        lemma_names_one("Unsupported filesystem type: {fs}"@, 29, 32);
        lemma_names_one("不支持的文件系统类型：{fs}"@, 11, 14);
        assert("Unsupported filesystem type: {fs}"@.subrange(30, 32) =~= "不支持的文件系统类型：{fs}"@.subrange(12, 14));
    }
    assert(placeholder_names("Mount name '{name}' must be 1-32 chars of letters, digits, _ or -"@) == placeholder_names("挂载名“{name}”须为 1–32 位字母、数字、_ 或 -"@)) by {
        reveal_strlit("Mount name '{name}' must be 1-32 chars of letters, digits, _ or -");
        reveal_strlit("挂载名“{name}”须为 1–32 位字母、数字、_ 或 -");
        lemma_names_one("Mount name '{name}' must be 1-32 chars of letters, digits, _ or -"@, 12, 17);
        lemma_names_one("挂载名“{name}”须为 1–32 位字母、数字、_ 或 -"@, 4, 9);
        assert("Mount name '{name}' must be 1-32 chars of letters, digits, _ or -"@.subrange(13, 17) =~= "挂载名“{name}”须为 1–32 位字母、数字、_ 或 -"@.subrange(5, 9));
    }
    assert(placeholder_names("Duplicate mount name '{name}'"@) == placeholder_names("挂载名“{name}”重复"@)) by {
        reveal_strlit("Duplicate mount name '{name}'");
        reveal_strlit("挂载名“{name}”重复");
        lemma_names_one("Duplicate mount name '{name}'"@, 22, 27);
        lemma_names_one("挂载名“{name}”重复"@, 4, 9);
        assert("Duplicate mount name '{name}'"@.subrange(23, 27) =~= "挂载名“{name}”重复"@.subrange(5, 9));
    }
}

} // verus!
