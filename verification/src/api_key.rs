use vstd::prelude::*;
use crate::text::{push_str, trim, trim_str};

verus! {

/// How long a key from a command is kept, in seconds, when its expiry is
/// not configured.
pub const DEFAULT_EXPIRES_IN: i64 = 3600;

/// Where an API key comes from: a configured key, a failure, or a command
/// to run (when no key is configured but a command is).
pub enum ApiKeyPlan {
    Ready(String),
    Failed(String),
    RunCommand(String),
}

/// The first steps of resolving an API key: a configured key is used as it
/// is; without one, a configured command is to be run (after the cache is
/// consulted), else the configuration's error stands.
pub fn api_key_plan(static_key_result: Result<String, String>, api_key_command: Option<&str>) -> (r: ApiKeyPlan)
    ensures
        match static_key_result {
            Ok(k) => r == ApiKeyPlan::Ready(k),
            Err(e) => match api_key_command {
                Some(c) => r matches ApiKeyPlan::RunCommand(x) && x@ == c@,
                None => r == ApiKeyPlan::Failed(e),
            },
        },
{
    match static_key_result {
        Ok(k) => ApiKeyPlan::Ready(k),
        Err(e) => match api_key_command {
            Some(c) => ApiKeyPlan::RunCommand(c.to_owned()),
            None => ApiKeyPlan::Failed(e),
        },
    }
}

/// The key a command printed, or why there is none: a failing command
/// (with its exit status and trimmed error output), or empty output.
pub open spec fn command_token_spec(success: bool, status: Seq<char>, stdout: Seq<char>, stderr: Seq<char>) -> Result<Seq<char>, Seq<char>> {
    if !success {
        Err("api_key_command exited with "@ + status + ": "@ + trim(stderr))
    } else if trim(stdout).len() == 0 {
        Err("api_key_command returned empty output"@)
    } else {
        Ok(trim(stdout))
    }
}

/// The key a command printed, as `command_token_spec` describes.
pub fn command_token(success: bool, status: &str, stdout: &str, stderr: &str) -> (r: Result<String, String>)
    ensures
        match r {
            Ok(t) => command_token_spec(success, status@, stdout@, stderr@) == Ok::<
                Seq<char>,
                Seq<char>,
            >(t@),
            Err(e) => command_token_spec(success, status@, stdout@, stderr@) == Err::<
                Seq<char>,
                Seq<char>,
            >(e@),
        },
{
    if !success {
        let mut e = String::new();
        push_str(&mut e, "api_key_command exited with ");
        push_str(&mut e, status);
        push_str(&mut e, ": ");
        let t = trim_str(stderr);
        push_str(&mut e, t.as_str());
        return Err(e);
    }
    let token = trim_str(stdout);
    if token.as_str().is_empty() {
        return Err("api_key_command returned empty output".to_owned());
    }
    Ok(token)
}

/// The seconds a key is kept: the configured expiry (as a signed number),
/// else the default.
pub open spec fn expires_in_secs(expires_in: Option<u64>) -> i64 {
    match expires_in {
        Some(v) => v as i64,
        None => DEFAULT_EXPIRES_IN,
    }
}

/// When a key got at `now` expires (seconds since the epoch).
pub fn token_expires_at(now: i64, expires_in: Option<u64>) -> (r: i64)
    requires
        i64::MIN <= now + expires_in_secs(expires_in) <= i64::MAX,
    ensures
        r == now + expires_in_secs(expires_in),
{
    let secs: i64 = match expires_in {
        Some(v) => v as i64,
        None => DEFAULT_EXPIRES_IN,
    };
    now + secs
}

} // verus!
