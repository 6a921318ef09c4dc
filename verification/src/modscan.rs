//! Detection of known third-party modifications injected into map scripts.
//!
//! Repack tools add their own code to `war3map.j` and leave the same literals
//! in every map they touch, so a single map is enough to recognise one: no
//! reference copy of the unmodified map is needed.
use crate::mpq::archive::ArchiveView;
use crate::reader::opt_view;
use crate::w3x::{spec_read_member, string_views, War3MapW3x};
use vstd::prelude::*;
use vstd::string::StringSliceAdditionalSpecFns;

verus! {

/// A modification recognised inside a map script.
#[derive(Debug, Clone)]
pub struct ModInfo {
    /// Stable identifier of the tool.
    pub tool: String,
    /// Human-readable name.
    pub label: String,
    /// Build string taken from the injected banner, when recognised.
    pub variant: Option<String>,
    /// How a player triggers the injected menu, in the tool's own terms.
    pub activation: Vec<String>,
    /// Which literals matched, so a result can be audited without a rescan.
    pub evidence: Vec<String>,
    /// Where the tool documents itself.
    pub reference: String,
}

/// A recognised modification as the library sees it.
pub struct ModInfoView {
    pub tool: Seq<char>,
    pub label: Seq<char>,
    pub variant: Option<Seq<char>>,
    pub activation: Seq<Seq<char>>,
    pub evidence: Seq<Seq<char>>,
    pub reference: Seq<char>,
}

impl View for ModInfo {
    type V = ModInfoView;

    open spec fn view(&self) -> ModInfoView {
        ModInfoView {
            tool: self.tool@,
            label: self.label@,
            variant: opt_view(self.variant),
            activation: string_views(self.activation@),
            evidence: string_views(self.evidence@),
            reference: self.reference@,
        }
    }
}

/// Whether the non-empty pattern `p` occurs somewhere in `h`.
pub open spec fn occurs(h: Seq<u8>, p: Seq<u8>) -> bool {
    &&& p.len() > 0
    &&& p.len() <= h.len()
    &&& exists|i: int| 0 <= i <= h.len() - p.len() && #[trigger] h.subrange(i, i + p.len()) == p
}

fn matches_at(h: &[u8], at: usize, p: &[u8]) -> (r: bool)
    requires
        at + p@.len() <= h@.len(),
    ensures
        r == (h@.subrange(at as int, at + p@.len()) == p@),
{
    let n = h.len();
    let mut k: usize = 0;
    while k < p.len()
        invariant
            n == h@.len(),
            at + p@.len() <= h@.len(),
            k <= p@.len(),
            h@.subrange(at as int, at + k) == p@.subrange(0, k as int),
        decreases p@.len() - k,
    {
        if h[at + k] != p[k] {
            proof {
                if h@.subrange(at as int, at + p@.len()) == p@ {
                    assert(h@.subrange(at as int, at + p@.len())[k as int] == h@[at + k]);
                }
            }
            return false;
        }
        proof {
            assert(h@.subrange(at as int, at + k + 1) =~= h@.subrange(at as int, at + k).push(h@[at + k]));
            assert(p@.subrange(0, k + 1) =~= p@.subrange(0, k as int).push(p@[k as int]));
        }
        k += 1;
    }
    proof {
        assert(p@.subrange(0, k as int) =~= p@);
    }
    true
}

/// Whether `needle` occurs in `haystack`; an empty needle never does.
pub(crate) fn contains(haystack: &[u8], needle: &str) -> (r: bool)
    ensures
        r == occurs(haystack@, needle.spec_bytes()),
{
    let pat = needle.as_bytes();
    let n = haystack.len();
    let m = pat.len();
    if m == 0 || n < m {
        return false;
    }
    let mut i: usize = 0;
    while i <= n - m
        invariant
            n == haystack@.len(),
            m == pat@.len(),
            pat@ == needle.spec_bytes(),
            0 < m <= n,
            i <= n - m + 1,
            forall|j: int| 0 <= j < i ==> #[trigger] haystack@.subrange(j, j + m) != pat@,
        decreases n - m + 1 - i,
    {
        if matches_at(haystack, i, pat) {
            assert(haystack@.subrange(i as int, i + pat@.len()) == pat@);
            return true;
        }
        i += 1;
    }
    false
}

/// The evidence tag of the first HKE banner marker the script carries. The
/// banner doubles as the injected menu's title and as the source of its chat
/// phrase, so removing it breaks the injected code.
pub open spec fn banner_tag(script: Seq<u8>) -> Option<Seq<char>> {
    if occurs(script, "WuHansen".spec_bytes()) {
        Some("banner:site"@)
    } else if occurs(script, "wuhansen".spec_bytes()) {
        Some("banner:site"@)
    } else if occurs(script, "WUHANSEN".spec_bytes()) {
        Some("banner:site"@)
    } else if occurs(script, "21764538".spec_bytes()) {
        Some("banner:qq"@)
    } else if occurs(script, "19938997".spec_bytes()) {
        Some("banner:qq-group"@)
    } else {
        None
    }
}

/// The first known banner build the script carries, longest first so
/// `hke1.25B` wins over `hke1.25`.
pub open spec fn hke_variant(script: Seq<u8>) -> Option<Seq<char>> {
    if occurs(script, "CheatEngine1.25".spec_bytes()) {
        Some("CheatEngine1.25"@)
    } else if occurs(script, "Hke1.25B".spec_bytes()) {
        Some("Hke1.25B"@)
    } else if occurs(script, "hke1.25B".spec_bytes()) {
        Some("hke1.25B"@)
    } else if occurs(script, "orz1.25B".spec_bytes()) {
        Some("orz1.25B"@)
    } else if occurs(script, "Hke1.25".spec_bytes()) {
        Some("Hke1.25"@)
    } else if occurs(script, "hke1.25".spec_bytes()) {
        Some("hke1.25"@)
    } else {
        None
    }
}

/// `seq![s]` when `c` holds, nothing otherwise.
pub open spec fn only_if(c: bool, s: Seq<char>) -> Seq<Seq<char>> {
    if c {
        seq![s]
    } else {
        Seq::empty()
    }
}

/// What inspecting raw script bytes finds.
///
/// A banner marker is required. The activation steps match both the tool's
/// own documentation and the events the injected JASS registers: four
/// arrow-key handlers driving a per-player state machine, one non-exact chat
/// event on `-`, a hidden phrase assembled from the banner, and the Esc event.
pub open spec fn spec_detect_in_script(script: Seq<u8>) -> Option<ModInfoView> {
    match banner_tag(script) {
        None => None,
        Some(tag) => {
            let keys = occurs(script, "TriggerRegisterPlayerKeyEventBJ".spec_bytes());
            let chat = occurs(script, ",\"-\",false)".spec_bytes());
            let phrase = occurs(script, "\"iam\"+SubStringBJ".spec_bytes());
            let esc = occurs(script, "EVENT_PLAYER_END_CINEMATIC".spec_bytes());
            Some(
                ModInfoView {
                    tool: "hke"@,
                    label: "HKE 作弊脚本（火龙）"@,
                    variant: hke_variant(script),
                    activation: only_if(keys, "方向键依次按 ↑↑←↓ 开启作弊，之后方向键操作弹出菜单"@) + only_if(
                        chat,
                        "聊天栏输入 - 开头的命令，-h 查键盘作弊、-c 查命令列表"@,
                    ) + only_if(phrase, "暗语 iamWuHansen"@) + only_if(esc, "Esc 用于清 CD、回血魔与切换背包"@),
                    evidence: seq![tag] + only_if(keys, "arrow-key-triggers"@) + only_if(chat, "chat-dash-event"@)
                        + only_if(phrase, "hidden-phrase"@) + only_if(esc, "esc-event"@),
                    reference: "https://www.wuhansen.com/warmap/"@,
                },
            )
        },
    }
}

/// Any one of the HKE banner markers (the site name `WuHansen` in any of its
/// three spellings, the QQ number `21764538`, the QQ group `19938997`) is
/// enough to recognise the modification, and no script without one of them
/// is reported. The first evidence entry names the marker found, the site
/// name first, then the QQ number, then the QQ group.
pub proof fn lemma_each_banner_marker_is_enough(script: Seq<u8>)
    ensures
        ({
            let site = occurs(script, "WuHansen".spec_bytes()) || occurs(script, "wuhansen".spec_bytes()) || occurs(
                script,
                "WUHANSEN".spec_bytes(),
            );
            let qq = occurs(script, "21764538".spec_bytes());
            let group = occurs(script, "19938997".spec_bytes());
            let r = spec_detect_in_script(script);
            &&& r is Some <==> (site || qq || group)
            &&& r is Some ==> r->Some_0.tool == "hke"@ && r->Some_0.evidence.len() >= 1
            &&& site ==> r->Some_0.evidence[0] == "banner:site"@
            &&& !site && qq ==> r->Some_0.evidence[0] == "banner:qq"@
            &&& !site && !qq && group ==> r->Some_0.evidence[0] == "banner:qq-group"@
        }),
{
}

fn push_if(v: &mut Vec<String>, c: bool, s: &str)
    ensures
        string_views(final(v)@) == string_views(old(v)@) + only_if(c, s@),
{
    let ghost before = v@;
    if c {
        v.push(String::from_str(s));
        assert(string_views(v@) =~= string_views(before) + seq![s@]);
    } else {
        assert(string_views(v@) =~= string_views(before) + Seq::<Seq<char>>::empty());
    }
}

fn detect_variant(script: &[u8]) -> (r: Option<String>)
    ensures
        opt_view(r) == hke_variant(script@),
{
    if contains(script, "CheatEngine1.25") {
        Some(String::from_str("CheatEngine1.25"))
    } else if contains(script, "Hke1.25B") {
        Some(String::from_str("Hke1.25B"))
    } else if contains(script, "hke1.25B") {
        Some(String::from_str("hke1.25B"))
    } else if contains(script, "orz1.25B") {
        Some(String::from_str("orz1.25B"))
    } else if contains(script, "Hke1.25") {
        Some(String::from_str("Hke1.25"))
    } else if contains(script, "hke1.25") {
        Some(String::from_str("hke1.25"))
    } else {
        None
    }
}

/// Inspect raw script bytes for known modifications.
pub fn detect_in_script(script: &[u8]) -> (r: Option<ModInfo>)
    ensures
        match r {
            Some(info) => spec_detect_in_script(script@) == Some(info@),
            None => spec_detect_in_script(script@) is None,
        },
{
    let tag = if contains(script, "WuHansen") || contains(script, "wuhansen") || contains(script, "WUHANSEN") {
        "banner:site"
    } else if contains(script, "21764538") {
        "banner:qq"
    } else if contains(script, "19938997") {
        "banner:qq-group"
    } else {
        return None;
    };
    let mut evidence: Vec<String> = Vec::new();
    evidence.push(String::from_str(tag));
    assert(string_views(evidence@) =~= seq![tag@]);
    let mut activation: Vec<String> = Vec::new();
    assert(string_views(activation@) =~= Seq::<Seq<char>>::empty());
    let keys = contains(script, "TriggerRegisterPlayerKeyEventBJ");
    push_if(&mut evidence, keys, "arrow-key-triggers");
    push_if(&mut activation, keys, "方向键依次按 ↑↑←↓ 开启作弊，之后方向键操作弹出菜单");
    let chat = contains(script, ",\"-\",false)");
    push_if(&mut evidence, chat, "chat-dash-event");
    push_if(&mut activation, chat, "聊天栏输入 - 开头的命令，-h 查键盘作弊、-c 查命令列表");
    let phrase = contains(script, "\"iam\"+SubStringBJ");
    push_if(&mut evidence, phrase, "hidden-phrase");
    push_if(&mut activation, phrase, "暗语 iamWuHansen");
    let esc = contains(script, "EVENT_PLAYER_END_CINEMATIC");
    push_if(&mut evidence, esc, "esc-event");
    push_if(&mut activation, esc, "Esc 用于清 CD、回血魔与切换背包");
    let info = ModInfo {
        tool: String::from_str("hke"),
        label: String::from_str("HKE 作弊脚本（火龙）"),
        variant: detect_variant(script),
        activation,
        evidence,
        reference: String::from_str("https://www.wuhansen.com/warmap/"),
    };
    assert(info@.evidence =~= spec_detect_in_script(script@)->Some_0.evidence);
    assert(info@.activation =~= spec_detect_in_script(script@)->Some_0.activation);
    Some(info)
}

/// The bytes of the first script the map holds, in the order the game
/// resolves them.
pub open spec fn spec_read_script(a: ArchiveView) -> Option<Seq<u8>> {
    match spec_read_member(a, "war3map.j") {
        Ok(d) => Some(d),
        Err(_) => match spec_read_member(a, "scripts\\war3map.j") {
            Ok(d) => Some(d),
            Err(_) => match spec_read_member(a, "war3map.lua") {
                Ok(d) => Some(d),
                Err(_) => match spec_read_member(a, "scripts\\war3map.lua") {
                    Ok(d) => Some(d),
                    Err(_) => None,
                },
            },
        },
    }
}

fn read_script(archive: &mut War3MapW3x) -> (r: Option<Vec<u8>>)
    requires
        old(archive).wf(),
    ensures
        final(archive).archive@ == old(archive).archive@,
        final(archive).header == old(archive).header,
        final(archive).files == old(archive).files,
        final(archive).wf(),
        match r {
            Some(d) => spec_read_script(old(archive).archive@) == Some(d@),
            None => spec_read_script(old(archive).archive@) is None,
        },
{
    if let Ok(d) = archive.read_file("war3map.j") {
        return Some(d);
    }
    if let Ok(d) = archive.read_file("scripts\\war3map.j") {
        return Some(d);
    }
    if let Ok(d) = archive.read_file("war3map.lua") {
        return Some(d);
    }
    if let Ok(d) = archive.read_file("scripts\\war3map.lua") {
        return Some(d);
    }
    None
}

/// Inspect a map's script for known modifications.
///
/// `None` means no known signature matched — not that the map is unmodified.
/// A protected map whose script cannot be read is indistinguishable from a
/// clean one here.
pub fn detect(archive: &mut War3MapW3x) -> (r: Option<ModInfo>)
    requires
        old(archive).wf(),
    ensures
        final(archive).archive@ == old(archive).archive@,
        final(archive).header == old(archive).header,
        final(archive).files == old(archive).files,
        final(archive).wf(),
        match spec_read_script(old(archive).archive@) {
            None => r is None,
            Some(script) => match r {
                Some(info) => spec_detect_in_script(script) == Some(info@),
                None => spec_detect_in_script(script) is None,
            },
        },
{
    let script = read_script(archive)?;
    detect_in_script(script.as_slice())
}

} // verus!
