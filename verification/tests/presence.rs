use channel_spy::ChannelSpy;
use channel_spy::Chatters;
use channel_spy::FetchError;
use channel_spy::ViewerSet;

fn chatters(
    broadcaster: Vec<&str>,
    viewers: Vec<&str>,
    vips: Vec<&str>,
    moderators: Vec<&str>,
) -> Chatters {
    Chatters {
        broadcaster: broadcaster.into_iter().map(str::to_string).collect(),
        viewers: viewers.into_iter().map(str::to_string).collect(),
        vips: vips.into_iter().map(str::to_string).collect(),
        moderators: moderators.into_iter().map(str::to_string).collect(),
        staff: Vec::new(),
        admins: Vec::new(),
        global_mods: Vec::new(),
    }
}

fn only_viewers(names: Vec<&str>) -> Chatters {
    chatters(vec![], names, vec![], vec![])
}

fn has(set: &ViewerSet, name: &str) -> bool {
    set.contains(&name.to_string())
}

#[test]
fn first_poll_reports_everyone_as_new() {
    // prev = {}, fetch returns {alice, bob}
    let mut spy = ChannelSpy::new("somechannel".to_string());
    let diff = spy.update_viewers(Ok(only_viewers(vec!["alice", "bob"]))).unwrap();
    assert_eq!(diff.new_viewers.len(), 2);
    assert!(has(&diff.new_viewers, "alice"));
    assert!(has(&diff.new_viewers, "bob"));
    assert_eq!(diff.left_viewers.len(), 0);
    // the baseline became {alice, bob}: an identical second fetch changes nothing
    let second = spy.update_viewers(Ok(only_viewers(vec!["alice", "bob"]))).unwrap();
    assert_eq!(second.new_viewers.len(), 0);
    assert_eq!(second.left_viewers.len(), 0);
}

#[test]
fn second_poll_reports_joins_and_leaves() {
    // prev = {alice, bob}, fetch returns {bob, carol}
    let mut spy = ChannelSpy::new("somechannel".to_string());
    spy.update_viewers(Ok(only_viewers(vec!["alice", "bob"]))).unwrap();
    let diff = spy.update_viewers(Ok(only_viewers(vec!["bob", "carol"]))).unwrap();
    assert_eq!(diff.new_viewers.len(), 1);
    assert!(has(&diff.new_viewers, "carol"));
    assert_eq!(diff.left_viewers.len(), 1);
    assert!(has(&diff.left_viewers, "alice"));
    // the baseline became {bob, carol}
    let third = spy.update_viewers(Ok(only_viewers(vec![]))).unwrap();
    assert_eq!(third.left_viewers.len(), 2);
    assert!(has(&third.left_viewers, "bob"));
    assert!(has(&third.left_viewers, "carol"));
}

#[test]
fn participant_in_two_categories_counts_once() {
    // prev = {alice}, fetch returns alice both as viewer and as vip
    let mut spy = ChannelSpy::new("somechannel".to_string());
    spy.update_viewers(Ok(only_viewers(vec!["alice"]))).unwrap();
    let diff = spy
        .update_viewers(Ok(chatters(vec![], vec!["alice"], vec!["alice"], vec![])))
        .unwrap();
    assert_eq!(diff.new_viewers.len(), 0);
    assert_eq!(diff.left_viewers.len(), 0);
}

#[test]
fn flattening_deduplicates_across_all_categories() {
    let ch = chatters(
        vec!["streamer"],
        vec!["alice", "streamer", "bob"],
        vec!["alice"],
        vec!["bob", "mira"],
    );
    let flat = ch.flatten();
    assert_eq!(flat.len(), 4);
    assert!(has(&flat, "streamer"));
    assert!(has(&flat, "alice"));
    assert!(has(&flat, "bob"));
    assert!(has(&flat, "mira"));
}

#[test]
fn failed_fetch_leaves_baseline_untouched() {
    // prev = {alice}, fetch fails
    let mut spy = ChannelSpy::new("somechannel".to_string());
    spy.update_viewers(Ok(only_viewers(vec!["alice"]))).unwrap();
    let res = spy.update_viewers(Err(FetchError { message: "connection reset".to_string() }));
    match res {
        Ok(_) => panic!("a failed fetch must fail the update"),
        Err(e) => assert_eq!(e.message, "connection reset"),
    }
    // the baseline is still {alice}
    let diff = spy.update_viewers(Ok(only_viewers(vec!["alice"]))).unwrap();
    assert_eq!(diff.new_viewers.len(), 0);
    assert_eq!(diff.left_viewers.len(), 0);
}

#[test]
fn diff_sets_are_disjoint() {
    let mut spy = ChannelSpy::new("somechannel".to_string());
    spy.update_viewers(Ok(only_viewers(vec!["alice", "bob", "carol"]))).unwrap();
    let diff = spy.update_viewers(Ok(only_viewers(vec!["bob", "dora"]))).unwrap();
    for name in diff.new_viewers.as_vec() {
        assert!(!diff.left_viewers.contains(name));
    }
    for name in diff.left_viewers.as_vec() {
        assert!(!diff.new_viewers.contains(name));
    }
}

#[test]
fn identical_consecutive_fetches_yield_empty_diff() {
    let mut spy = ChannelSpy::new("somechannel".to_string());
    spy.update_viewers(Ok(only_viewers(vec!["alice", "bob"]))).unwrap();
    let diff = spy.update_viewers(Ok(only_viewers(vec!["bob", "alice"]))).unwrap();
    assert_eq!(diff.new_viewers.len(), 0);
    assert_eq!(diff.left_viewers.len(), 0);
}

#[test]
fn viewer_set_ignores_duplicate_inserts() {
    let mut set = ViewerSet::new();
    set.insert("alice".to_string());
    set.insert("alice".to_string());
    set.insert("bob".to_string());
    assert_eq!(set.len(), 2);
    assert!(has(&set, "alice"));
    assert!(has(&set, "bob"));
    assert!(!has(&set, "carol"));
}

#[test]
fn spy_keeps_its_channel_name() {
    let spy = ChannelSpy::new("somechannel".to_string());
    assert_eq!(spy.channel_name().as_str(), "somechannel");
}
