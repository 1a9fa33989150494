use group_adder::identity::Identity;
use group_adder::invite::{
    invite_template, link_message, plan_invites, render_invite, InvitePass, DEFAULT_TEMPLATE,
    LINK_PLACEHOLDER,
};

fn member(phone: &str) -> Identity {
    Identity::new(format!("{}@s.whatsapp.net", phone))
}

fn addresses(ids: &[Identity]) -> Vec<String> {
    ids.iter().map(|i| i.address.clone()).collect()
}

#[test]
fn plan_skips_already_invited_and_repeats() {
    let candidates = vec![member("1"), member("2"), member("1"), member("3")];
    let invited = vec!["2".to_string()];
    let plan = plan_invites(&candidates, &invited);
    assert_eq!(
        addresses(&plan.pending),
        vec!["1@s.whatsapp.net".to_string(), "3@s.whatsapp.net".to_string()]
    );
    assert_eq!(
        addresses(&plan.skipped),
        vec!["2@s.whatsapp.net".to_string(), "1@s.whatsapp.net".to_string()]
    );
}

#[test]
fn second_pass_after_delivery_invites_no_one() {
    let candidates = vec![member("1"), member("2")];
    let mut pass = InvitePass::new(vec![]);
    let plan = plan_invites(&candidates, &pass.invited);
    assert_eq!(plan.pending.len(), 2);
    for jid in &plan.pending {
        pass.record_delivery(jid, true);
    }
    assert_eq!(pass.sent, 2);
    assert_eq!(pass.ledger_to_save(), Some(&vec!["1".to_string(), "2".to_string()]));
    let again = plan_invites(&candidates, &pass.invited);
    assert!(again.pending.is_empty());
    assert_eq!(again.skipped.len(), 2);
}

#[test]
fn failed_delivery_leaves_ledger_unchanged() {
    let mut pass = InvitePass::new(vec!["7".to_string()]);
    pass.record_delivery(&member("8"), false);
    assert_eq!(pass.sent, 0);
    assert_eq!(pass.invited, vec!["7".to_string()]);
    assert_eq!(pass.ledger_to_save(), None);
}

#[test]
fn forbidden_member_gets_one_message_with_link() {
    let candidates = vec![member("403403")];
    let plan = plan_invites(&candidates, &vec![]);
    assert_eq!(plan.pending.len(), 1);
    let template = invite_template(None);
    let link = Some("https://chat.whatsapp.com/ABC".to_string());
    let message = render_invite(&template, &link);
    assert!(message.contains("Join here: https://chat.whatsapp.com/ABC"));
    assert!(!message.contains("{link}"));
}

#[test]
fn missing_link_uses_placeholder() {
    let message = render_invite("Join: {link}!", &None);
    assert_eq!(message, format!("Join: {}!", LINK_PLACEHOLDER));
    assert_eq!(message, "Join: (ask admin for invite link)!");
}

#[test]
fn template_is_trimmed_or_default() {
    assert_eq!(invite_template(Some("  Hello {link}\n\n".to_string())), "Hello {link}");
    assert_eq!(invite_template(None), DEFAULT_TEMPLATE);
}

#[test]
fn link_message_carries_link() {
    assert_eq!(link_message("https://x/y"), "Join our group: https://x/y");
}
