use oqqwall::shortcut::{
    is_builtin_global_command_name, is_builtin_review_command_name, parse_builtin_global_action,
    parse_builtin_review_action, parse_global_shortcut_actions, parse_review_shortcut_actions,
    parse_shortcut_scope_token, shortcut_field_name, shortcut_scope_label,
    split_shortcut_definition, validate_global_shortcut_definition,
    validate_review_shortcut_definition, validate_shortcut_name, GlobalAction, ReviewAction,
    ShortcutScope, ShortcutTemplateContext,
};

#[test]
fn split_shortcut_definition_supports_bar_and_newline() {
    let steps = split_shortcut_definition("匿 | 是\n拒").expect("steps");
    assert_eq!(steps, vec!["匿", "是", "拒"]);
}

#[test]
fn review_shortcut_supports_system_placeholders() {
    let actions = parse_review_shortcut_actions(
        "回复 投稿人 {sender_id} #{review_code} {args} | 拉黑 {group_id}",
        &ShortcutTemplateContext {
            args: "请重发",
            review_code: Some(42),
            sender_id: Some("10001"),
            group_id: "wall-a",
        },
    )
    .expect("actions");
    assert_eq!(
        actions,
        vec![
            ReviewAction::Reply {
                text: "投稿人 10001 #42 请重发".to_string(),
            },
            ReviewAction::Blacklist {
                reason: Some("wall-a".to_string()),
            }
        ]
    );
}

#[test]
fn global_shortcut_rejects_review_only_placeholders() {
    let err = parse_global_shortcut_actions(
        "撤回 {review_code}",
        &ShortcutTemplateContext {
            args: "",
            review_code: None,
            sender_id: None,
            group_id: "wall-a",
        },
    )
    .expect_err("should fail");
    assert!(err.contains("{review_code}"));
}

#[test]
fn split_treats_crlf_as_one_line_end() {
    let steps = split_shortcut_definition("是\r\n否").expect("steps");
    assert_eq!(steps, vec!["是", "否"]);
}

#[test]
fn split_skips_empty_pieces_but_rejects_blank_ones() {
    assert_eq!(split_shortcut_definition("是||否").unwrap(), vec!["是", "否"]);
    assert_eq!(
        split_shortcut_definition("是| |否").unwrap_err(),
        "快捷指令包含空步骤"
    );
    assert_eq!(split_shortcut_definition("").unwrap_err(), "快捷指令至少需要一个步骤");
    assert_eq!(split_shortcut_definition("|\n").unwrap_err(), "快捷指令至少需要一个步骤");
}

#[test]
fn shortcut_names_are_trimmed_and_checked() {
    assert_eq!(validate_shortcut_name("  快审 ").unwrap(), "快审");
    assert_eq!(validate_shortcut_name("   ").unwrap_err(), "快捷指令名不能为空");
    assert_eq!(validate_shortcut_name("原始").unwrap_err(), "快捷指令名不能为 原始");
    assert_eq!(validate_shortcut_name("a b").unwrap_err(), "快捷指令名不能包含空白字符");
}

#[test]
fn scope_labels_and_tokens() {
    assert_eq!(shortcut_scope_label(ShortcutScope::Review), "审核");
    assert_eq!(shortcut_scope_label(ShortcutScope::Global), "全局");
    assert_eq!(shortcut_field_name(ShortcutScope::Review), "review_shortcuts");
    assert_eq!(shortcut_field_name(ShortcutScope::Global), "global_shortcuts");
    assert_eq!(parse_shortcut_scope_token(" review "), Some(ShortcutScope::Review));
    assert_eq!(parse_shortcut_scope_token("全局"), Some(ShortcutScope::Global));
    assert_eq!(parse_shortcut_scope_token("other"), None);
}

#[test]
fn builtin_command_names() {
    assert!(is_builtin_review_command_name(" 查成分 "));
    assert!(!is_builtin_review_command_name("帮助"));
    assert!(is_builtin_global_command_name("系统修复"));
    assert!(!is_builtin_global_command_name("是"));
}

#[test]
fn review_actions_parse_their_arguments() {
    assert_eq!(
        parse_builtin_review_action("合并", " #12 ", false),
        None
    );
    assert_eq!(
        parse_builtin_review_action("合并", " 12 34", false),
        Some(ReviewAction::Merge { review_code: 12 })
    );
    assert_eq!(
        parse_builtin_review_action("拉黑", "   ", false),
        Some(ReviewAction::Blacklist { reason: None })
    );
    assert_eq!(
        parse_builtin_review_action("等", "", false),
        Some(ReviewAction::Defer { delay_ms: 180_000 })
    );
    assert_eq!(parse_builtin_review_action("你好", "", false), None);
    assert_eq!(
        parse_builtin_review_action("你好", "", true),
        Some(ReviewAction::QuickReply { key: "你好".to_string() })
    );
}

#[test]
fn global_actions_parse_their_arguments() {
    assert_eq!(parse_builtin_global_action("HeLp", ""), Some(GlobalAction::Help));
    assert_eq!(
        parse_builtin_global_action("调出", " #7 "),
        Some(GlobalAction::Recall { review_code: 7 })
    );
    assert_eq!(
        parse_builtin_global_action("设定编号", "+15"),
        Some(GlobalAction::SetExternalNumber { value: 15 })
    );
    assert_eq!(
        parse_builtin_global_action("快捷回复", "添加  欢迎 =  你好 呀 "),
        Some(GlobalAction::QuickReplyAdd {
            key: "欢迎".to_string(),
            text: "你好 呀".to_string()
        })
    );
    assert_eq!(parse_builtin_global_action("快捷回复", ""), Some(GlobalAction::QuickReplyList));
    assert_eq!(
        parse_builtin_global_action("快捷指令", "添加 审核 快审 = 匿|是"),
        Some(GlobalAction::ShortcutAdd {
            scope: ShortcutScope::Review,
            key: "快审".to_string(),
            definition: "匿|是".to_string()
        })
    );
    assert_eq!(
        parse_builtin_global_action("快捷指令", "删除 global 清空"),
        Some(GlobalAction::ShortcutDelete {
            scope: ShortcutScope::Global,
            key: "清空".to_string()
        })
    );
    assert_eq!(parse_builtin_global_action("快捷指令", "  "), Some(GlobalAction::ShortcutList));
}

#[test]
fn global_shortcuts_only_run_state_changing_commands() {
    let ctx = ShortcutTemplateContext {
        args: "5",
        review_code: None,
        sender_id: None,
        group_id: "g",
    };
    assert_eq!(
        parse_global_shortcut_actions("撤回 {args} | 发送暂存区", &ctx).unwrap(),
        vec![GlobalAction::Withdraw { review_code: 5 }, GlobalAction::SendQueueFlush]
    );
    assert_eq!(
        parse_global_shortcut_actions("帮助", &ctx).unwrap_err(),
        "无效的全局快捷指令步骤：帮助"
    );
}

#[test]
fn placeholder_errors() {
    let ctx = ShortcutTemplateContext {
        args: "",
        review_code: None,
        sender_id: None,
        group_id: "g",
    };
    assert_eq!(
        parse_review_shortcut_actions("回复 {review_code}", &ctx).unwrap_err(),
        "当前上下文不支持 {review_code}"
    );
    assert_eq!(
        parse_review_shortcut_actions("回复 {nope}", &ctx).unwrap_err(),
        "未知占位符 {nope}"
    );
    assert_eq!(
        parse_review_shortcut_actions("回复 {args", &ctx).unwrap_err(),
        "快捷指令占位符缺少 '}'"
    );
    assert_eq!(
        parse_global_shortcut_actions("撤回 { sender_id }", &ctx).unwrap_err(),
        "全局快捷指令不支持占位符 {sender_id}"
    );
}

#[test]
fn definitions_are_checked_against_sample_contexts() {
    assert!(validate_review_shortcut_definition("回复 {sender_id} | 是").is_ok());
    assert_eq!(
        validate_review_shortcut_definition("帮助").unwrap_err(),
        "无效的审核快捷指令步骤：帮助"
    );
    assert!(validate_global_shortcut_definition("撤回 {args}").is_ok());
    assert!(validate_global_shortcut_definition("撤回 {review_code}").is_err());
}

#[test]
fn review_word_list_and_review_parser_accept_the_same_words() {
    let words = [
        "是", "否", "等", "删", "拒", "立即", "刷新", "重渲染", "消息全选", "匿", "扩列审查", "扩列",
        "查", "查成分", "展示", "评论", "回复", "合并", "拉黑", "帮助", "好", "发", "",
    ];
    for w in words {
        assert_eq!(
            oqqwall::shortcut::is_builtin_review_command_name(w),
            oqqwall::shortcut::parse_builtin_review_action(w, "1", false).is_some(),
            "word {w}"
        );
    }
}
