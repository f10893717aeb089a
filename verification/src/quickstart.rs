//! `croniq quickstart`: the sample Croniqfile it writes and what it prints
//! once the database is initialised. Writing the file and initialising the
//! database are the caller's.

use vstd::prelude::*;
use crate::text::push_str;

verus! {

/// The Croniqfile that `croniq quickstart` writes when none exists: a
/// server, metrics, retry defaults and two jobs.
pub const SAMPLE_CRONIQFILE: &'static str = "# Croniqfile — Quickstart

server {
  listen :4000
  data_dir .data
}

observability {
  metrics { listen :9900; path /metrics }
}

defaults {
  timeout 5m
  retry exponential { max_attempts 3; base 2s; cap 30s }
}

# Your first job — runs every minute
job hello:world {
  every 1 minutes
  timeout 30s
  metadata { created_by quickstart }
}

# A health check every 5 minutes
job ops:heartbeat {
  every 5 minutes
  timeout 10s
}
";

/// What quickstart says about the Croniqfile: created, or already there.
pub open spec fn croniqfile_message(existed: bool, path: Seq<char>) -> Seq<char> {
    if existed {
        "Using existing "@ + path + "\n"@
    } else {
        "Created "@ + path + "\n"@
    }
}

/// The line printed about the Croniqfile at `path`.
pub fn croniqfile_text(existed: bool, path: &str) -> (s: String)
    ensures
        s@ == croniqfile_message(existed, path@),
{
    let mut s = String::new();
    if existed {
        push_str(&mut s, "Using existing ");
    } else {
        push_str(&mut s, "Created ");
    }
    push_str(&mut s, path);
    push_str(&mut s, "\n");
    s
}

/// The next steps printed after a quickstart: how to start the server with
/// and without the UI, where to log in, and how to connect a runner.
pub open spec fn next_steps_message(croniqfile: Seq<char>, data_dir: Seq<char>, password: Seq<char>) -> Seq<char> {
    "\n"@ + "=== Quickstart complete! ===\n"@ + "\n"@ + "Start the server:\n"@
        + "  croniq-server --config "@ + croniqfile + " --data-dir "@ + data_dir + " --ui-dir ui/dist\n"@
        + "\n"@ + "Or without UI:\n"@ + "  croniq-server --config "@ + croniqfile + " --data-dir "@ + data_dir
        + "\n"@ + "\n"@ + "Then open: http://localhost:4000\n"@ + "Login:     admin / "@ + password + "\n"@
        + "\n"@ + "Your first job (hello:world) fires every minute.\n"@
        + "Connect a runner to process it:\n"@ + "\n"@ + "  // In your runner code:\n"@
        + "  let runner = CroniqRunner::builder(\"http://localhost:4000\", \"my-runner\")\n"@
        + "      .api_key(\"<your-api-key>\")\n"@ + "      .build();\n"@
        + "  runner.register(\"hello:world\", |ctx| async { Ok(()) }).await;\n"@
        + "  runner.start().await;\n"@
}

/// The text printed after a quickstart.
pub fn next_steps_text(croniqfile: &str, data_dir: &str, password: &str) -> (s: String)
    ensures
        s@ == next_steps_message(croniqfile@, data_dir@, password@),
{
    let mut s = String::new();
    push_str(&mut s, "\n");
    push_str(&mut s, "=== Quickstart complete! ===\n");
    push_str(&mut s, "\n");
    push_str(&mut s, "Start the server:\n");
    push_str(&mut s, "  croniq-server --config ");
    push_str(&mut s, croniqfile);
    push_str(&mut s, " --data-dir ");
    push_str(&mut s, data_dir);
    push_str(&mut s, " --ui-dir ui/dist\n");
    push_str(&mut s, "\n");
    push_str(&mut s, "Or without UI:\n");
    push_str(&mut s, "  croniq-server --config ");
    push_str(&mut s, croniqfile);
    push_str(&mut s, " --data-dir ");
    push_str(&mut s, data_dir);
    push_str(&mut s, "\n");
    push_str(&mut s, "\n");
    push_str(&mut s, "Then open: http://localhost:4000\n");
    push_str(&mut s, "Login:     admin / ");
    push_str(&mut s, password);
    push_str(&mut s, "\n");
    push_str(&mut s, "\n");
    push_str(&mut s, "Your first job (hello:world) fires every minute.\n");
    push_str(&mut s, "Connect a runner to process it:\n");
    push_str(&mut s, "\n");
    push_str(&mut s, "  // In your runner code:\n");
    push_str(&mut s, "  let runner = CroniqRunner::builder(\"http://localhost:4000\", \"my-runner\")\n");
    push_str(&mut s, "      .api_key(\"<your-api-key>\")\n");
    push_str(&mut s, "      .build();\n");
    push_str(&mut s, "  runner.register(\"hello:world\", |ctx| async { Ok(()) }).await;\n");
    push_str(&mut s, "  runner.start().await;\n");
    assert(s@ =~= next_steps_message(croniqfile@, data_dir@, password@));
    s
}

} // verus!
