//! Webhooks: the list of endpoints told about changes, which of them an event reaches,
//! and what they are sent.

use vstd::prelude::*;
use crate::text::{strs, str_eq, contains_str, owned};
use crate::types::{Memory, kind_name, copy_strings};

verus! {

/// An endpoint told about the events it names.
#[derive(Debug, Clone)]
pub struct Webhook {
    pub name: String,
    pub url: String,
    pub events: Vec<String>,
    pub secret: Option<String>,
    pub enabled: bool,
}

/// What a webhook is told about a memory.
#[derive(Debug, Clone)]
pub struct WebhookMemory {
    pub id: String,
    pub kind: String,
    pub key: String,
    pub content: String,
    pub tags: Vec<String>,
}

/// What a webhook is sent: the event, the memory (if any), when and in which project.
#[derive(Debug, Clone)]
pub struct WebhookPayload {
    pub event: String,
    pub memory: Option<WebhookMemory>,
    pub timestamp: String,
    pub project: String,
}

/// Adds a webhook at the end of the list.
pub fn add_webhook(webhooks: &mut Vec<Webhook>, webhook: Webhook)
    ensures
        final(webhooks)@ == old(webhooks)@.push(webhook),
{
    webhooks.push(webhook);
}

/// Removes every webhook named `name`, keeping the others in order; whether any was
/// removed. Afterwards no webhook has that name.
pub fn remove_webhook(webhooks: &mut Vec<Webhook>, name: &str) -> (removed: bool)
    ensures
        final(webhooks)@ == old(webhooks)@.filter(|w: Webhook| w.name@ != name@),
        forall|i: int| 0 <= i < final(webhooks)@.len() ==> (#[trigger] final(webhooks)@[i]).name@ != name@,
        removed == exists|i: int| 0 <= i < old(webhooks)@.len() && old(webhooks)@[i].name@ == name@,
{
    let ghost s = webhooks@;
    let ghost f = |w: Webhook| w.name@ != name@;
    let mut found = false;
    let mut i: usize = 0;
    let ghost mut j: int = 0;
    assert(s.take(0) =~= Seq::<Webhook>::empty());
    assert(s.skip(0) =~= s);
    while i < webhooks.len()
        invariant
            0 <= j <= s.len(),
            f == (|w: Webhook| w.name@ != name@),
            webhooks@ == s.take(j).filter(f) + s.skip(j),
            i == s.take(j).filter(f).len(),
            found == exists|k: int| 0 <= k < j && s[k].name@ == name@,
        decreases webhooks.len() - i,
    {
        let ghost pre = s.take(j).filter(f);
        assert(webhooks@[i as int] == s[j]);
        assert(s.take(j + 1).drop_last() =~= s.take(j));
        assert(s.take(j + 1).last() == s[j]);
        reveal_with_fuel(Seq::filter, 1);
        if str_eq(webhooks[i].name.as_str(), name) {
            webhooks.remove(i);
            found = true;
            assert(webhooks@ =~= s.take(j + 1).filter(f) + s.skip(j + 1));
        } else {
            i = i + 1;
            assert(s.take(j + 1).filter(f) =~= pre.push(s[j]));
            assert(webhooks@ =~= s.take(j + 1).filter(f) + s.skip(j + 1));
        }
        proof {
            j = j + 1;
        }
    }
    assert(s.skip(j).len() == 0);
    assert(j == s.len());
    assert(s.take(j) =~= s);
    assert(webhooks@ =~= s.filter(f));
    assert forall|k: int| 0 <= k < webhooks@.len() implies (#[trigger] webhooks@[k]).name@ != name@ by {
        s.lemma_filter_pred(f, k);
    }
    found
}

/// The webhooks that an event reaches: the enabled ones that name it.
pub fn webhooks_for_event(webhooks: &[Webhook], event: &str) -> (r: Vec<usize>)
    ensures
        forall|k: int| 0 <= k < r.len() ==> (#[trigger] r@[k]) < webhooks.len(),
        forall|a: int, b: int| 0 <= a < b < r.len() ==> r@[a] < r@[b],
        forall|i: int| 0 <= i < webhooks.len() ==> (r@.contains(i as usize) <==> (webhooks@[i].enabled
            && strs(webhooks@[i].events@).contains(event@))),
{
    let mut r: Vec<usize> = Vec::new();
    let mut i: usize = 0;
    while i < webhooks.len()
        invariant
            i <= webhooks.len(),
            forall|k: int| 0 <= k < r.len() ==> (#[trigger] r@[k]) < i,
            forall|a: int, b: int| 0 <= a < b < r.len() ==> r@[a] < r@[b],
            forall|x: int| 0 <= x < i ==> (r@.contains(x as usize) <==> (webhooks@[x].enabled
                && strs(webhooks@[x].events@).contains(event@))),
        decreases webhooks.len() - i,
    {
        let ghost before = r@;
        if webhooks[i].enabled && contains_str(webhooks[i].events.as_slice(), event) {
            r.push(i);
            assert forall|x: int| 0 <= x < i + 1 implies (r@.contains(x as usize) <==> (webhooks@[x].enabled
                && strs(webhooks@[x].events@).contains(event@))) by {
                if x < i {
                    if before.contains(x as usize) {
                        let k = choose|k: int| 0 <= k < before.len() && before[k] == x as usize;
                        assert(r@[k] == x as usize);
                    }
                    if r@.contains(x as usize) {
                        let k = choose|k: int| 0 <= k < r@.len() && r@[k] == x as usize;
                        if k < before.len() {
                            assert(before[k] == x as usize);
                        }
                    }
                } else {
                    assert(r@[before.len() as int] == i);
                }
            }
        } else {
            assert forall|x: int| 0 <= x < i + 1 implies (r@.contains(x as usize) <==> (webhooks@[x].enabled
                && strs(webhooks@[x].events@).contains(event@))) by {
                if x == i && r@.contains(x as usize) {
                    let k = choose|k: int| 0 <= k < r@.len() && r@[k] == x as usize;
                }
            }
        }
        i = i + 1;
    }
    r
}

/// What a webhook is told about a memory: its id, kind name, key, content and tags.
pub fn webhook_memory(m: &Memory) -> (r: WebhookMemory)
    ensures
        r.id@ == m.id@,
        r.kind@ == kind_name(m.kind),
        r.key@ == m.key@,
        r.content@ == m.content@,
        strs(r.tags@) == strs(m.tags@),
{
    WebhookMemory {
        id: m.id.clone(),
        kind: m.kind.to_string(),
        key: m.key.clone(),
        content: m.content.clone(),
        tags: copy_strings(&m.tags),
    }
}

/// What webhooks are sent for an event: the event, the memory when there is one, the
/// time and the project's name.
pub fn webhook_payload(event: &str, memory: Option<&Memory>, timestamp: String, project: String) -> (r: WebhookPayload)
    ensures
        r.event@ == event@,
        r.timestamp@ == timestamp@,
        r.project@ == project@,
        memory is None <==> r.memory is None,
        memory matches Some(m) ==> r.memory matches Some(w) && w.id@ == m.id@ && w.kind@ == kind_name(m.kind)
            && w.key@ == m.key@ && w.content@ == m.content@ && strs(w.tags@) == strs(m.tags@),
{
    WebhookPayload {
        event: owned(event),
        memory: match memory {
            Some(m) => Some(webhook_memory(m)),
            None => None,
        },
        timestamp,
        project,
    }
}

} // verus!
