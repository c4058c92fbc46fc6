//! The keeper of a family of worktrees.

use bash_attribution::family::{
    AppliedCommand, ApplyAck, FamilyKey, FamilyReply, FamilyRequest, FamilyState, FamilyStatus,
    Reduction,
};
use bash_attribution::{GitAiError, SortedMap};

struct Actor {
    state: FamilyState,
}

impl Actor {
    fn spawn(name: &str) -> Actor {
        Actor { state: FamilyState::new(FamilyKey::new(name)) }
    }

    fn next(&self) -> Reduction {
        Reduction { applied_seq: self.state.applied_seq + 1, last_error: None }
    }

    fn apply(&mut self) -> AppliedCommand {
        let reduction = self.next();
        let applied = AppliedCommand { seq: reduction.applied_seq };
        match self.state.serve(FamilyRequest::Apply(reduction, Ok(applied))) {
            FamilyReply::Applied(outcome) => outcome.unwrap(),
            _ => panic!("a command is answered with its outcome"),
        }
    }

    fn status(&mut self) -> FamilyStatus {
        match self.state.serve(FamilyRequest::Status) {
            FamilyReply::Status(status) => status,
            _ => panic!("a request for the status is answered with it"),
        }
    }

    fn watermarks(&mut self) -> SortedMap<String, u128> {
        match self.state.serve(FamilyRequest::GetWatermarks) {
            FamilyReply::Watermarks(marks) => marks,
            _ => panic!("a request for the watermarks is answered with them"),
        }
    }

    fn update(&mut self, news: Vec<(&str, u128)>) {
        let reply = self.state.serve(FamilyRequest::UpdateWatermarks(SortedMap::from_entries(
            news.into_iter().map(|(path, mark)| (path.to_string(), mark)).collect(),
        )));
        assert!(matches!(reply, FamilyReply::Nothing));
    }

    fn shutdown(&mut self) {
        assert!(matches!(self.state.serve(FamilyRequest::Shutdown), FamilyReply::Stopped));
    }
}

fn mark(marks: &SortedMap<String, u128>, path: &str) -> Option<u128> {
    marks.get(&path.to_string()).copied()
}

#[test]
fn actor_applies_commands() {
    let mut actor = Actor::spawn("family-1");
    let ack1 = actor.apply();
    let ack2 = actor.apply();
    assert_eq!(ack1.seq, 1);
    assert_eq!(ack2.seq, 2);
    actor.shutdown();
}

#[test]
fn actor_status_reports_applied_seq() {
    let mut actor = Actor::spawn("family-2");
    actor.apply();
    let status = actor.status();
    assert_eq!(status.applied_seq, 1);
    assert_eq!(status.family_key.name, "family-2");
    assert!(status.last_error.is_none());
    actor.shutdown();
}

#[test]
fn test_watermarks_initially_empty() {
    let mut actor = Actor::spawn("test-family");
    let watermarks = actor.watermarks();
    assert!(watermarks.is_empty());
    actor.shutdown();
}

#[test]
fn test_watermarks_update_and_retrieve() {
    let mut actor = Actor::spawn("test-family");

    actor.update(vec![("src/main.rs", 1000), ("src/lib.rs", 2000)]);
    let watermarks = actor.watermarks();
    assert_eq!(mark(&watermarks, "src/main.rs"), Some(1000));
    assert_eq!(mark(&watermarks, "src/lib.rs"), Some(2000));

    actor.update(vec![("src/main.rs", 3000)]);
    let watermarks = actor.watermarks();
    assert_eq!(mark(&watermarks, "src/main.rs"), Some(3000));
    assert_eq!(mark(&watermarks, "src/lib.rs"), Some(2000));

    actor.shutdown();
}

#[test]
fn a_lower_watermark_changes_nothing() {
    let mut actor = Actor::spawn("f");
    actor.update(vec![("a", 10), ("z", 0)]);
    actor.update(vec![("a", 4), ("b", 2)]);
    actor.update(vec![("a", 4), ("b", 2)]);
    let watermarks = actor.watermarks();
    assert_eq!(watermarks.len(), 3);
    assert_eq!(mark(&watermarks, "a"), Some(10));
    assert_eq!(mark(&watermarks, "b"), Some(2));
    assert_eq!(mark(&watermarks, "z"), Some(0));
    assert_eq!(mark(&watermarks, "c"), None);
}

#[test]
fn reports_in_either_order_come_to_the_same() {
    let mut one = Actor::spawn("f");
    one.update(vec![("a", 10), ("b", 1)]);
    one.update(vec![("b", 7), ("c", 3)]);
    let mut other = Actor::spawn("f");
    other.update(vec![("b", 7), ("c", 3)]);
    other.update(vec![("a", 10), ("b", 1)]);
    let x = one.watermarks();
    let y = other.watermarks();
    assert_eq!(x.len(), y.len());
    for i in 0..x.len() {
        assert_eq!(x.key_at(i), y.key_at(i));
        assert_eq!(x.value_at(i), y.value_at(i));
    }
}

#[test]
fn requests_are_answered_in_turn() {
    let mut actor = Actor::spawn("f");
    assert!(actor.watermarks().is_empty());
    actor.update(vec![("a", 1)]);
    let between = actor.watermarks();
    actor.update(vec![("a", 2)]);
    assert_eq!(mark(&between, "a"), Some(1));
    actor.apply();
    assert_eq!(mark(&actor.watermarks(), "a"), Some(2));
    let mut other = Actor::spawn("f");
    assert!(other.watermarks().is_empty());
    assert_eq!(other.status().applied_seq, 0);
}

#[test]
fn a_checkpoint_is_acknowledged_under_the_number_it_got() {
    let mut actor = Actor::spawn("f");
    actor.apply();
    let reduction = actor.next();
    match actor.state.serve(FamilyRequest::ApplyCheckpoint(reduction)) {
        FamilyReply::Acknowledged(ack) => assert_eq!(ack, ApplyAck { seq: 2, applied: true }),
        _ => panic!("a checkpoint is acknowledged"),
    }
}

#[test]
fn a_command_that_failed_is_answered_with_its_error() {
    let mut actor = Actor::spawn("f");
    let reduction = Reduction { applied_seq: 0, last_error: Some("no".to_string()) };
    let failed = Err(GitAiError::Generic("no".to_string()));
    match actor.state.serve(FamilyRequest::Apply(reduction, failed)) {
        FamilyReply::Applied(Err(GitAiError::Generic(text))) => assert_eq!(text, "no"),
        _ => panic!("the error comes back"),
    }
    assert_eq!(actor.status().last_error.unwrap(), "no");
}
