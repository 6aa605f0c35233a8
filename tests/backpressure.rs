use std::sync::atomic::{AtomicUsize, Ordering};
use std::sync::Arc;
use std::time::Duration;

use sectrails::reader::{InputCursor, ReaderAction};
use sectrails::run_state::State;
use sectrails::statistic::Statistic;

#[test]
fn reader_never_runs_more_than_one_term_ahead() {
    let runtime = tokio::runtime::Builder::new_current_thread().enable_time().build().unwrap();
    runtime.block_on(async {
        let content: String = (0..20).map(|i| format!("term{i}\n")).collect();
        let mut stats = Statistic::new();
        let mut cursor = InputCursor::start(&content, &mut stats);
        let (tx, mut rx) = tokio::sync::mpsc::channel::<String>(1);
        let sent = Arc::new(AtomicUsize::new(0));
        let sent_by_reader = sent.clone();
        let reader = tokio::spawn(async move {
            while let ReaderAction::Send(term) = cursor.poll(State::Processing) {
                tx.send(term).await.unwrap();
                sent_by_reader.fetch_add(1, Ordering::SeqCst);
            }
        });
        let mut received = 0;
        let mut order = Vec::new();
        while let Some(term) = rx.recv().await {
            received += 1;
            order.push(term);
            tokio::time::sleep(Duration::from_millis(2)).await;
            assert!(sent.load(Ordering::SeqCst) <= received + 1);
        }
        reader.await.unwrap();
        assert_eq!(received, 20);
        assert_eq!(order, (0..20).map(|i| format!("term{i}")).collect::<Vec<_>>());
    });
}
