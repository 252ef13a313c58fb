use simple_image_viewer::database::{batch_query, placeholder_list, FolderRecord};
use simple_image_viewer::embedding_service::{
    attention_mask, simple_tokenize, token_of, tokenize_lowered, EmbeddingGuard, EMBEDDING_DIM,
    EMBEDDING_VERSION,
};
use simple_image_viewer::recommend::{
    folder_action, has_basis, history_len, score_terms, stale_positions, FolderAction,
    FolderEmbedding, FolderOutcome, FolderState, RebuildError, RebuildJob, RebuildProgress,
    RebuildSummary,
};

#[test]
fn embedding_constants() {
    assert_eq!(EMBEDDING_DIM, 512);
    assert_eq!(EMBEDDING_VERSION, 1);
}

#[test]
fn unchanged_folder_is_skipped_unless_forced() {
    assert_eq!(folder_action(false, 100, Some(100)), FolderAction::SkipUnchanged);
    assert_eq!(folder_action(false, 100, Some(150)), FolderAction::SkipUnchanged);
    assert_eq!(folder_action(false, 101, Some(100)), FolderAction::Embed);
    assert_eq!(folder_action(false, 100, None), FolderAction::Embed);
    assert_eq!(folder_action(true, 100, Some(100)), FolderAction::Embed);
    assert_eq!(folder_action(true, 100, Some(150)), FolderAction::Embed);
}

#[test]
fn second_rebuild_without_changes_processes_nothing() {
    let mut guard = EmbeddingGuard::new();
    let mtimes = [10i64, 20, 30];
    // first run: nothing stored
    let mut stored: Vec<Option<i64>> = vec![None; 3];
    let mut job = RebuildJob::start(&mut guard, 3, false).unwrap();
    for (i, m) in mtimes.iter().enumerate() {
        match job.action_for(*m, stored[i]) {
            FolderAction::Embed => {
                stored[i] = Some(*m);
                job.record(FolderOutcome::Embedded);
            }
            FolderAction::SkipUnchanged => {
                job.record(FolderOutcome::Unchanged);
            }
        }
    }
    let first = job.finish(&mut guard);
    assert_eq!(first, RebuildSummary { processed: 3, skipped_unchanged: 0, skipped_error: 0 });
    assert!(!guard.is_processing());
    // second run
    let mut job = RebuildJob::start(&mut guard, 3, false).unwrap();
    for (i, m) in mtimes.iter().enumerate() {
        match job.action_for(*m, stored[i]) {
            FolderAction::Embed => {
                job.record(FolderOutcome::Embedded);
            }
            FolderAction::SkipUnchanged => {
                job.record(FolderOutcome::Unchanged);
            }
        }
    }
    assert!(!job.has_remaining());
    let second = job.finish(&mut guard);
    assert_eq!(second, RebuildSummary { processed: 0, skipped_unchanged: 3, skipped_error: 0 });
}

#[test]
fn rebuild_is_refused_while_one_runs() {
    let mut guard = EmbeddingGuard::new();
    let mut job = RebuildJob::start(&mut guard, 2, false).unwrap();
    assert!(guard.is_processing());
    assert_eq!(RebuildJob::start(&mut guard, 5, true).err(), Some(RebuildError::AlreadyInProgress));
    assert!(guard.is_processing());
    job.fail(&mut guard);
    assert!(!guard.is_processing());
    assert!(RebuildJob::start(&mut guard, 5, true).is_ok());
}

#[test]
fn rebuild_of_no_folders_fails_and_leaves_the_guard_clear() {
    let mut guard = EmbeddingGuard::new();
    assert_eq!(RebuildJob::start(&mut guard, 0, false).err(), Some(RebuildError::NoFoldersFound));
    assert!(!guard.is_processing());
}

#[test]
fn guard_is_a_single_flag() {
    let mut guard = EmbeddingGuard::new();
    assert!(!guard.is_processing());
    assert!(guard.try_begin());
    assert!(!guard.try_begin());
    guard.set_processing(false);
    assert!(guard.try_begin());
}

#[test]
fn progress_every_ten_embedded_and_every_hundred_visited() {
    let mut guard = EmbeddingGuard::new();
    let mut job = RebuildJob::start(&mut guard, 250, false).unwrap();
    let mut reports: Vec<RebuildProgress> = Vec::new();
    for i in 0..250 {
        let outcome = if i < 95 {
            FolderOutcome::Unchanged
        } else if i < 99 {
            FolderOutcome::Failed
        } else {
            FolderOutcome::Embedded
        };
        if let Some(p) = job.record(outcome) {
            reports.push(p);
        }
    }
    // visited 100 (1 embedded), embedded 10, 20, ..., 150, visited 200 (101 embedded)
    assert_eq!(reports[0], RebuildProgress { processed: 1, total: 250, skipped_unchanged: 95, skipped_error: 4 });
    assert_eq!(reports[1].processed, 10);
    assert!(reports.iter().any(|p| p.processed == 101));
    assert_eq!(reports.len(), 1 + 15 + 1);
    assert_eq!(job.progress().processed, 151);
}

#[test]
fn stale_positions_lists_what_to_embed() {
    let folders = vec![
        FolderState { modified_at: 5, stored: Some(5) },
        FolderState { modified_at: 6, stored: Some(5) },
        FolderState { modified_at: 1, stored: None },
        FolderState { modified_at: 1, stored: Some(9) },
    ];
    assert_eq!(stale_positions(&folders, false), vec![1, 2]);
    assert_eq!(stale_positions(&folders, true), vec![0, 1, 2, 3]);
}

#[test]
fn no_history_means_no_score_terms() {
    assert!(!has_basis(true, 0));
    assert!(!has_basis(false, 10));
    assert!(has_basis(true, 1));
    let none = score_terms(false, true, true, true);
    assert!(!none.image && !none.path);
    let image_only = score_terms(true, true, false, true);
    assert!(image_only.image && !image_only.path);
    let both = score_terms(true, true, true, true);
    assert!(both.image && both.path);
    let nothing_stored = score_terms(true, false, true, true);
    assert!(!nothing_stored.image && !nothing_stored.path);
    assert_eq!(history_len(3), 3);
    assert_eq!(history_len(20), 20);
    assert_eq!(history_len(57), 20);
}

#[test]
fn first_view_creates_and_later_views_count() {
    let first = FolderRecord::record_folder_view(None, "/a", Some(vec![1, 2]), Some("h1".to_string()), 100);
    assert_eq!(first.path, "/a");
    assert_eq!(first.view_count, 1);
    assert_eq!(first.last_viewed_at, Some(100));
    assert_eq!(first.created_at, 100);
    assert_eq!(first.thumbnail_blob, Some(vec![1, 2]));
    assert_eq!(first.image_embedding, None);
    let second = FolderRecord::record_folder_view(Some(first), "/a", None, None, 200);
    assert_eq!(second.view_count, 2);
    assert_eq!(second.last_viewed_at, Some(200));
    assert_eq!(second.created_at, 100);
    // absent values never erase stored ones
    assert_eq!(second.thumbnail_blob, Some(vec![1, 2]));
    assert_eq!(second.thumbnail_hash, Some("h1".to_string()));
    let third = FolderRecord::record_folder_view(Some(second), "/a", Some(vec![9]), Some("h2".to_string()), 300);
    assert_eq!(third.view_count, 3);
    assert_eq!(third.thumbnail_blob, Some(vec![9]));
    assert_eq!(third.thumbnail_hash, Some("h2".to_string()));
}

#[test]
fn embedding_upsert_leaves_view_history() {
    let viewed = FolderRecord::record_folder_view(None, "/a", Some(vec![1]), Some("h".to_string()), 100);
    let embedded = FolderRecord::upsert_folder_embedding(Some(viewed), "/a", None, vec![7, 7], 1, 555, 900);
    assert_eq!(embedded.view_count, 1);
    assert_eq!(embedded.last_viewed_at, Some(100));
    assert_eq!(embedded.created_at, 100);
    assert_eq!(embedded.thumbnail_blob, Some(vec![1]));
    assert_eq!(embedded.image_embedding, Some(vec![7, 7]));
    assert_eq!(embedded.embedding_version, Some(1));
    assert_eq!(embedded.folder_modified_at, Some(555));
    let fresh = FolderRecord::upsert_folder_embedding(None, "/b", Some(vec![3]), vec![8], 1, 5, 900);
    assert_eq!(fresh.view_count, 0);
    assert_eq!(fresh.last_viewed_at, None);
    assert_eq!(fresh.created_at, 900);
    assert_eq!(fresh.thumbnail_blob, Some(vec![3]));
}

#[test]
fn thumbnail_update_and_embedding_update() {
    let fresh = FolderRecord::update_thumbnail(None, "/a", vec![1], "h".to_string(), 50);
    assert_eq!(fresh.view_count, 0);
    assert_eq!(fresh.last_viewed_at, None);
    assert!(fresh.needs_embedding(1));
    assert!(FolderRecord::update_embeddings(None, vec![1], vec![2], 1).is_none());
    let updated = FolderRecord::update_embeddings(Some(fresh), vec![1], vec![2], 1).unwrap();
    assert_eq!(updated.image_embedding, Some(vec![1]));
    assert_eq!(updated.path_embedding, Some(vec![2]));
    assert!(!updated.needs_embedding(1));
    assert!(updated.needs_embedding(2));
    let replaced = FolderRecord::update_thumbnail(Some(updated), "/a", vec![4], "h4".to_string(), 60);
    assert_eq!(replaced.thumbnail_blob, Some(vec![4]));
    assert_eq!(replaced.created_at, 50);
    assert_eq!(replaced.image_embedding, Some(vec![1]));
}

#[test]
fn placeholders_are_numbered_from_one() {
    assert_eq!(placeholder_list(0), "");
    assert_eq!(placeholder_list(1), "?1");
    assert_eq!(placeholder_list(3), "?1, ?2, ?3");
    assert_eq!(placeholder_list(11), "?1, ?2, ?3, ?4, ?5, ?6, ?7, ?8, ?9, ?10, ?11");
    assert_eq!(batch_query("SELECT x WHERE p IN (", 0, ")"), None);
    assert_eq!(
        batch_query("SELECT x WHERE p IN (", 2, ") AND y IS NOT NULL"),
        Some("SELECT x WHERE p IN (?1, ?2) AND y IS NOT NULL".to_string())
    );
}

#[test]
fn tokens_of_a_text() {
    assert_eq!(token_of('a'), 320);
    assert_eq!(token_of('z'), 345);
    assert_eq!(token_of('0'), 346);
    assert_eq!(token_of('9'), 355);
    assert_eq!(token_of(' '), 256);
    assert_eq!(token_of('/'), 257);
    assert_eq!(token_of('\\'), 258);
    assert_eq!(token_of('_'), 259);
    assert_eq!(token_of('-'), 260);
    assert_eq!(token_of('.'), 261);
    assert_eq!(token_of('('), 262);
    assert_eq!(token_of(')'), 263);
    assert_eq!(token_of('['), 264);
    assert_eq!(token_of(']'), 265);
    assert_eq!(token_of('#'), 266);
    assert_eq!(token_of('A'), 266);

    let tokens = simple_tokenize("Ab 1");
    assert_eq!(tokens.len(), 77);
    assert_eq!(&tokens[..6], &[49406, 320, 321, 256, 347, 49407]);
    assert!(tokens[6..].iter().all(|t| *t == 0));
    let mask = attention_mask(&tokens);
    assert_eq!(mask.iter().sum::<i64>(), 6);

    let long: String = std::iter::repeat('x').take(200).collect();
    let tokens = tokenize_lowered(&long);
    assert_eq!(tokens.len(), 77);
    assert_eq!(tokens[0], 49406);
    assert_eq!(tokens[75], 343);
    assert_eq!(tokens[76], 49407);
    let empty = simple_tokenize("");
    assert_eq!(&empty[..2], &[49406, 49407]);
}

fn embedding_of(byte: u8) -> Option<FolderEmbedding> {
    Some(FolderEmbedding { thumbnail: Some(vec![byte]), embedding: vec![byte, byte] })
}

#[test]
fn settled_rebuild_writes_stale_folders_only() {
    let mut guard = EmbeddingGuard::new();
    let folders = [("/d/a", 10i64), ("/d/b", 20), ("/d/c", 30)];
    let mut records: Vec<Option<FolderRecord>> = vec![
        None,
        Some(FolderRecord::upsert_folder_embedding(None, "/d/b", None, vec![5], 1, 20, 1)),
        Some(FolderRecord::record_folder_view(None, "/d/c", None, None, 2)),
    ];

    let mut job = RebuildJob::start(&mut guard, 3, false).unwrap();
    // never embedded: written
    let a = job.settle(records[0].take(), "/d/a", 10, embedding_of(1), 1, 100);
    assert_eq!(a.outcome, FolderOutcome::Embedded);
    assert_eq!(a.record.as_ref().unwrap().image_embedding, Some(vec![1, 1]));
    assert_eq!(a.record.as_ref().unwrap().folder_modified_at, Some(10));
    assert_eq!(a.record.as_ref().unwrap().created_at, 100);
    // embedded at its present time: left alone, though work is offered
    let b = job.settle(records[1].take(), "/d/b", 20, embedding_of(2), 1, 100);
    assert_eq!(b.outcome, FolderOutcome::Unchanged);
    assert_eq!(b.record.as_ref().unwrap().image_embedding, Some(vec![5]));
    assert_eq!(b.record.as_ref().unwrap().thumbnail_blob, None);
    // viewed but never embedded, and the work fails: counted, record kept
    let c = job.settle(records[2].take(), "/d/c", 30, None, 1, 100);
    assert_eq!(c.outcome, FolderOutcome::Failed);
    assert_eq!(c.record.as_ref().unwrap().image_embedding, None);
    assert_eq!(c.record.as_ref().unwrap().view_count, 1);
    assert!(!job.has_remaining());
    assert_eq!(job.finish(&mut guard), RebuildSummary { processed: 1, skipped_unchanged: 1, skipped_error: 1 });

    // a forced rebuild embeds the unchanged folder anew
    let mut forced = RebuildJob::start(&mut guard, 1, true).unwrap();
    let again = forced.settle(b.record, "/d/b", 20, embedding_of(2), 2, 200);
    assert_eq!(again.outcome, FolderOutcome::Embedded);
    assert_eq!(again.record.as_ref().unwrap().image_embedding, Some(vec![2, 2]));
    assert_eq!(again.record.as_ref().unwrap().embedding_version, Some(2));
    assert_eq!(again.record.as_ref().unwrap().thumbnail_blob, Some(vec![2]));
    assert_eq!(again.record.as_ref().unwrap().created_at, 1);
    forced.finish(&mut guard);

    // a second rebuild over what the first one embedded skips it
    let mut second = RebuildJob::start(&mut guard, 2, false).unwrap();
    let a2 = second.settle(a.record, folders[0].0, folders[0].1, embedding_of(9), 1, 300);
    let b2 = second.settle(again.record, folders[1].0, folders[1].1, embedding_of(9), 1, 300);
    assert_eq!(a2.outcome, FolderOutcome::Unchanged);
    assert_eq!(b2.outcome, FolderOutcome::Unchanged);
    assert_eq!(a2.record.unwrap().image_embedding, Some(vec![1, 1]));
    assert_eq!(second.finish(&mut guard), RebuildSummary { processed: 0, skipped_unchanged: 2, skipped_error: 0 });
}
