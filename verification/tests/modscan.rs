use war3parser::modscan::detect_in_script;

#[test]
fn clean_script_is_not_flagged() {
    let script = b"function main takes nothing returns nothing\nendfunction";
    assert!(detect_in_script(script).is_none());
}

#[test]
fn hke_banner_and_triggers_are_reported() {
    let script = [
        "string hke_Z0z=\"菜单 |cFFFF0000Hke1.25B|r By 火龙 QQ:21764538",
        "|n|cFF00FF33Www.WuHansen.Com|r\"\n",
        "call TriggerRegisterPlayerKeyEventBJ(hke_z00[0],p,0,3)\n",
        "call TriggerRegisterPlayerChatEvent(hke_zz1[0],p,\"-\",false)\n",
        "if(s==\"iam\"+SubStringBJ(hke_Z0z,139,146))then\n",
    ]
    .concat();
    let script = script.as_bytes();
    let info = detect_in_script(script).expect("should detect");
    assert_eq!(info.tool, "hke");
    assert_eq!(info.variant.as_deref(), Some("Hke1.25B"));
    assert!(info.evidence.iter().any(|e| e == "arrow-key-triggers"));
    assert!(info.evidence.iter().any(|e| e == "chat-dash-event"));
    assert!(info.evidence.iter().any(|e| e == "hidden-phrase"));
    assert_eq!(info.activation.len(), 3);
}

#[test]
fn qq_number_alone_is_enough() {
    let script = b"string x=\"By Hke QQ:21764538\"";
    let info = detect_in_script(script).expect("should detect");
    assert_eq!(info.evidence.first().map(String::as_str), Some("banner:qq"));
    assert!(info.variant.is_none());
}

#[test]
fn lowercase_site_banner_and_esc_event_are_reported() {
    let script = b"// wuhansen\ncall TriggerRegisterPlayerEvent(t,p,EVENT_PLAYER_END_CINEMATIC)\nhke1.25";
    let info = detect_in_script(script).expect("should detect");
    assert_eq!(info.evidence, vec!["banner:site".to_string(), "esc-event".to_string()]);
    assert_eq!(info.variant.as_deref(), Some("hke1.25"));
    assert_eq!(info.activation.len(), 1);
    assert_eq!(info.reference, "https://www.wuhansen.com/warmap/");
}
