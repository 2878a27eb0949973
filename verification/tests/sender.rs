use oqqwall::qzone::{build_publish_text_for_batch, IngressAuthor, RequeuePostPlan, SendPriority};
use oqqwall::sender::{
    requeue_commands, success_commands, QzoneSenderBook, SendPlanMeta, SenderCommand, SenderEvent,
};

fn author(uid: &str, name: Option<&str>) -> IngressAuthor {
    IngressAuthor { user_id: uid.to_string(), sender_name: name.map(|n| n.to_string()) }
}

fn book() -> QzoneSenderBook {
    let mut b = QzoneSenderBook::new();
    b.apply(SenderEvent::IngressKept { ingress_id: 1, author: author("111", Some("A")) });
    b.apply(SenderEvent::IngressKept { ingress_id: 2, author: author("222", Some("B")) });
    b.apply(SenderEvent::IngressKept { ingress_id: 3, author: author("333", None) });
    b.apply(SenderEvent::DraftCreated { post_id: 10, ingress_ids: vec![1, 2], is_anonymous: false });
    b.apply(SenderEvent::DraftCreated { post_id: 11, ingress_ids: vec![3], is_anonymous: true });
    b.apply(SenderEvent::ReviewLinked { review_id: 100, post_id: 10, review_code: 7 });
    b.apply(SenderEvent::ReviewLinked { review_id: 101, post_id: 11, review_code: 8 });
    b
}

#[test]
fn book_keeps_codes_and_authors_for_the_batch_text() {
    let b = book();
    let infos = b.batch_infos(&vec![10, 11]);
    assert_eq!(infos.len(), 2);
    assert_eq!(infos[0].review_code, Some(7));
    assert_eq!(infos[0].authors.len(), 2);
    assert!(!infos[0].anonymous);
    assert!(infos[1].anonymous);
    let text = build_publish_text_for_batch(&infos, true);
    assert_eq!(text, "#7~8 @{uin:111,nick:,who:1}, @{uin:222,nick:,who:1}");
}

#[test]
fn external_codes_take_over_and_can_be_cleared() {
    let mut b = book();
    b.apply(SenderEvent::ExternalCodeAssigned { post_id: 10, external_code: 500 });
    assert_eq!(b.batch_infos(&vec![10])[0].external_code, Some(500));
    b.apply(SenderEvent::ExternalCodeCleared { post_id: 10 });
    assert_eq!(b.batch_infos(&vec![10])[0].external_code, None);
}

#[test]
fn recalled_message_leaves_its_post() {
    let mut b = book();
    b.apply(SenderEvent::IngressRecalled { ingress_id: 1 });
    assert_eq!(b.ingress_of(10), Some(&vec![2]));
    assert_eq!(b.batch_infos(&vec![10])[0].authors.len(), 1);
    b.apply(SenderEvent::IngressIgnored { ingress_id: 2 });
    assert_eq!(b.batch_infos(&vec![10])[0].authors.len(), 0);
}

#[test]
fn anonymity_toggles_through_the_review() {
    let mut b = book();
    b.apply(SenderEvent::AnonToggled { review_id: 100 });
    assert!(b.batch_infos(&vec![10])[0].anonymous);
    b.apply(SenderEvent::AnonToggled { review_id: 100 });
    assert!(!b.batch_infos(&vec![10])[0].anonymous);
    b.apply(SenderEvent::AnonToggled { review_id: 999 });
    assert!(!b.batch_infos(&vec![10])[0].anonymous);
}

#[test]
fn plans_attempts_blobs_and_renders_are_kept() {
    let mut b = book();
    let plan = SendPlanMeta { group_id: "g".to_string(), not_before_ms: 5, priority: SendPriority::Normal, seq: 3 };
    b.apply(SenderEvent::PlanSet { post_id: 10, plan });
    assert_eq!(b.take_plan(10).map(|p| p.seq), Some(3));
    assert!(b.take_plan(10).is_none());
    assert_eq!(b.next_attempt(10), 1);
    assert_eq!(b.next_attempt(10), 2);
    b.clear_attempts(10);
    assert_eq!(b.next_attempt(10), 1);
    b.apply(SenderEvent::BlobPersisted { blob_id: 9, path: "/tmp/x".to_string() });
    assert_eq!(b.blob_paths.get(&9).map(|s| s.as_str()), Some("/tmp/x"));
    b.apply(SenderEvent::BlobGone { blob_id: 9 });
    assert!(b.blob_paths.get(&9).is_none());
    b.apply(SenderEvent::PngReady { post_id: 10, blob_id: 4 });
    assert_eq!(b.render_png.get(&10), Some(&Some(4)));
    b.apply(SenderEvent::RenderReset { post_id: 10 });
    assert_eq!(b.render_png.get(&10), Some(&None));
}

#[test]
fn requeued_posts_wait_for_the_batch() {
    let requeue = vec![
        RequeuePostPlan { post_id: 5, priority: SendPriority::Normal, seq: 1 },
        RequeuePostPlan { post_id: 6, priority: SendPriority::High, seq: 2 },
    ];
    let cmds = requeue_commands(&requeue, "g1", 1_000);
    assert_eq!(cmds.len(), 2);
    match &cmds[1] {
        SenderCommand::Reschedule { post_id, group_id, not_before_ms, priority, seq } => {
            assert_eq!((*post_id, group_id.as_str(), *not_before_ms, *priority, *seq), (6, "g1", 1_000 + 31_536_000_000, SendPriority::High, 2));
        }
        other => panic!("unexpected {other:?}"),
    }
}

#[test]
fn a_sent_batch_cancels_the_others_then_reports_every_post() {
    let cmds = success_commands(&vec![7, 5, 9], 5, "acct", 42, &Some("tid".to_string()));
    assert_eq!(cmds.len(), 5);
    assert!(matches!(cmds[0], SenderCommand::CancelPlan { post_id: 7 }));
    assert!(matches!(cmds[1], SenderCommand::CancelPlan { post_id: 9 }));
    let reported: Vec<(u128, Option<String>)> = cmds[2..]
        .iter()
        .map(|c| match c {
            SenderCommand::Succeeded { post_id, account_id, finished_at_ms, remote_id } => {
                assert_eq!(account_id, "acct");
                assert_eq!(*finished_at_ms, 42);
                (*post_id, remote_id.clone())
            }
            other => panic!("unexpected {other:?}"),
        })
        .collect();
    assert_eq!(reported, vec![(7, None), (5, Some("tid".to_string())), (9, None)]);
}
