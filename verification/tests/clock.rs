use raft_rs::clock::now_millis;

#[test]
fn the_clock_reads_after_the_epoch() {
    let reading = now_millis();
    assert!(reading > 0);
}
