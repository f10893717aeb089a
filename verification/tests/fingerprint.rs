use croniq::compile::{compile, JobConfig};
use croniq::parser::Parser;
use croniq::placeholders::HostInputs;
use sha2::{Digest, Sha256};

/// Compile `src` and return the single job it defines.
fn job(src: &str) -> JobConfig {
    let ast = Parser::parse(src).expect("parses");
    let runtime = compile(&ast, &HostInputs { env: Vec::new(), files: Vec::new() });
    assert_eq!(runtime.jobs.len(), 1, "fixture must define exactly one job");
    runtime.jobs.into_iter().next().unwrap()
}

fn hash(src: &str) -> String {
    job(src).config_hash()
}

#[test]
fn hash_is_stable_across_calls() {
    let j = job(r#"job etl:sync { every 15 minutes }"#);
    assert_eq!(j.config_hash(), j.config_hash());
}

#[test]
fn hash_is_stable_across_metadata_iteration_order() {
    // The compiler stores metadata in a `HashMap`, so this is the one
    // field whose serialisation order genuinely varies between processes
    // — and between two maps built in a different insert order in the
    // same process. Both must hash the same or every restart looks like a
    // config change.
    let mut a = job(r#"job etl:sync { every 15 minutes }"#);
    let mut b = job(r#"job etl:sync { every 15 minutes }"#);
    for (k, v) in [("alpha", "1"), ("beta", "2"), ("gamma", "3")] {
        a.metadata.push((k.into(), v.into()));
    }
    for (k, v) in [("gamma", "3"), ("alpha", "1"), ("beta", "2")] {
        b.metadata.push((k.into(), v.into()));
    }
    assert_eq!(a.config_hash(), b.config_hash());
}

#[test]
fn hash_is_a_64_char_lowercase_hex_digest() {
    let h = hash(r#"job etl:sync { every 15 minutes }"#);
    assert_eq!(h.len(), 64, "{h}");
    assert!(
        h.chars()
            .all(|c| c.is_ascii_digit() || ('a'..='f').contains(&c)),
        "{h}"
    );
}

#[test]
fn formatting_only_edits_do_not_change_the_hash() {
    // Same compiled job, three source spellings: inline vs. block body,
    // a comment, and a different directive order.
    let inline = hash(r#"job etl:sync { every 15 minutes; timeout 9m; singleton }"#);
    let block = hash(
        r#"
        job etl:sync {
          every 15 minutes
          # rotate the upstream credential
          singleton
          timeout 9m
        }
        "#,
    );
    assert_eq!(inline, block);
}

#[test]
fn description_change_does_not_change_the_hash() {
    let before = hash(r#"job etl:sync { every 15 minutes; description "syncs" }"#);
    let after = hash(r#"job etl:sync { every 15 minutes; description "syncs upstream" }"#);
    assert_eq!(before, after);
}

#[test]
fn tags_change_does_not_change_the_hash() {
    let before = hash(r#"job etl:sync { every 15 minutes; tags "env=prod" }"#);
    let after = hash(r#"job etl:sync { every 15 minutes; tags "env=prod" "team=data" }"#);
    assert_eq!(before, after);
}

#[test]
fn job_key_does_not_change_the_hash() {
    // Two different jobs with the same body hash alike: the stored hash is
    // keyed by job key, so identity never distinguishes the two values
    // that get compared.
    let a = hash(r#"job etl:sync { every 15 minutes }"#);
    let b = hash(r#"job etl:other { every 15 minutes }"#);
    assert_eq!(a, b);
}

#[test]
fn adding_run_on_register_does_not_itself_change_the_hash() {
    let without = hash(r#"job etl:sync { every 15 minutes }"#);
    let with = hash(r#"job etl:sync { every 15 minutes; run_on_register }"#);
    assert_eq!(without, with);
}

// ── Behavioural fields that must move the hash ───────────────────────────

#[test]
fn schedule_change_changes_the_hash() {
    assert_ne!(
        hash(r#"job etl:sync { every 15 minutes }"#),
        hash(r#"job etl:sync { every 5 minutes }"#)
    );
}

#[test]
fn timezone_change_changes_the_hash() {
    assert_ne!(
        hash(r#"job etl:sync { every day at 04:20; timezone UTC }"#),
        hash(r#"job etl:sync { every day at 04:20; timezone Europe/Vienna }"#)
    );
}

#[test]
fn timeout_change_changes_the_hash() {
    assert_ne!(
        hash(r#"job etl:sync { every 15 minutes; timeout 5m }"#),
        hash(r#"job etl:sync { every 15 minutes; timeout 2h }"#)
    );
}

#[test]
fn runner_requirement_change_changes_the_hash() {
    assert_ne!(
        hash(r#"job etl:sync { every 15 minutes; runner { require alpha } }"#),
        hash(r#"job etl:sync { every 15 minutes; runner { require beta } }"#)
    );
}

#[test]
fn metadata_change_changes_the_hash() {
    assert_ne!(
        hash(r#"job etl:sync { every 15 minutes; metadata { env prod } }"#),
        hash(r#"job etl:sync { every 15 minutes; metadata { env staging } }"#)
    );
}

#[test]
fn shell_command_change_changes_the_hash() {
    // The whole point of the directive: the thing the job *does* changed,
    // so reconcile now rather than at 04:20 tomorrow.
    assert_ne!(
        hash(r#"job etl:sync { every 15 minutes; runner shell { command "sync.sh" } }"#),
        hash(r#"job etl:sync { every 15 minutes; runner shell { command "sync.sh --v2" } }"#)
    );
}

#[test]
fn window_change_changes_the_hash() {
    assert_ne!(
        hash(r#"job etl:sync { every 15 minutes; window 08:00..18:00 }"#),
        hash(r#"job etl:sync { every 15 minutes; window 09:00..18:00 }"#)
    );
}

#[test]
fn concurrency_guard_change_changes_the_hash() {
    assert_ne!(
        hash(r#"job etl:sync { every 15 minutes; singleton }"#),
        hash(r#"job etl:sync { every 15 minutes; max_concurrent 3 }"#)
    );
}

#[test]
fn retry_change_changes_the_hash() {
    assert_ne!(
        hash(r#"job etl:sync { every 15 minutes; retry exponential { max_attempts 3 } }"#),
        hash(r#"job etl:sync { every 15 minutes; retry exponential { max_attempts 7 } }"#)
    );
}


#[test]
fn canonical_text_sorts_keys_and_leaves_out_identity() {
    let j = job(r#"job etl:sync { every 15 minutes; description "d"; tags "x"; metadata { b 2; a 1 } }"#);
    assert_eq!(
        j.canonical_json(),
        [
            r#"{"catch_up":"all","calendar":null,"dead_letter":{"enabled":true,"operator_hint":null,"replay_max_age":null,"retention":"30d"},"#,
            r#""execution_mode":"queued","keep_last":null,"max_concurrent":null,"max_queue_depth":null,"metadata":{"a":"1","b":"2"},"#,
            r#""not_after":null,"not_before":null,"queue_ttl":null,"#,
            r#""retry":{"base":"2s","cap":"30s","delay":null,"jitter":"0.25","max_attempts":3,"step":null,"strategy":"exponential"},"#,
            r#""runner":{"exclude":[],"prefer":[],"require":[],"sticky":false},"schedule":{"Interval":{"seconds":900}},"#,
            r#""timeout":null,"timezone":null,"window":null}"#,
        ]
        .concat()
    );
}

#[test]
fn hash_is_the_sha256_of_the_canonical_text() {
    let j = job(r#"job etl:sync { every day at 04:20 }"#);
    let expected = hex::encode(Sha256::digest(j.canonical_json().as_bytes()));
    assert_eq!(j.config_hash(), expected);
}
