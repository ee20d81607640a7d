use crown_relay::config;
use crown_relay::profile::{list_of, parse_number, str_of, u128_of, u64_of, Profile, ProfileError};

const TESTNET: &str = r#"
# The testnet profile.
index_principal = "aaaaa-aa"          # the index
cycle_floor = 1_000_000_000_000
ingest_price = 17_000_000_000         # at least the index's
sign_price   = 26_200_000_000
root_price   =  1_000_000_000

burst_budget_cycles = 100_000_000_000
burst_window_secs = 60
daily_budget_cycles = 10_000_000_000_000
daily_window_secs = 86_400

allowlist = ["PLACEHOLDER_pusher_principal"]
games = [ "PLACEHOLDER_game_principal", ]
"#;

fn parse(text: &str) -> Profile {
    match Profile::parse(text) {
        Ok(p) => p,
        Err(e) => panic!("{e:?}"),
    }
}

fn fault(text: &str) -> ProfileError {
    match Profile::parse(text) {
        Ok(p) => panic!("{p:?}"),
        Err(e) => e,
    }
}

#[test]
fn the_testnet_profile_is_what_this_build_holds() {
    let p = parse(TESTNET);
    assert_eq!(p.index, config::INDEX);
    assert_eq!(p.cycle_floor, config::CYCLE_FLOOR);
    assert_eq!(p.ingest_price, config::INGEST_PRICE);
    assert_eq!(p.sign_price, config::SIGN_PRICE);
    assert_eq!(p.root_price, config::ROOT_PRICE);
    assert_eq!(p.burst_budget, config::BURST_BUDGET_CYCLES);
    assert_eq!(p.burst_window_secs, config::BURST_WINDOW_SECS);
    assert_eq!(p.daily_budget, config::DAILY_BUDGET_CYCLES);
    assert_eq!(p.daily_window_secs, config::DAILY_WINDOW_SECS);
    assert_eq!(p.allowlist, config::ALLOWLIST);
    assert_eq!(p.games, config::GAMES);
    // Windows line endings make no difference.
    assert_eq!(parse(&TESTNET.replace('\n', "\r\n")).games, config::GAMES);
}

#[test]
fn a_missing_key_is_named() {
    for key in [
        "index_principal",
        "cycle_floor",
        "ingest_price",
        "sign_price",
        "root_price",
        "burst_budget_cycles",
        "burst_window_secs",
        "daily_budget_cycles",
        "daily_window_secs",
        "allowlist",
        "games",
    ] {
        let text = TESTNET.replace(key, "other");
        assert_eq!(fault(&text), ProfileError::Missing(key));
    }
    assert_eq!(fault(""), ProfileError::Missing("index_principal"));
}

#[test]
fn a_value_that_is_no_integer_is_named() {
    assert_eq!(
        fault(&TESTNET.replace("17_000_000_000", "\"many\"")),
        ProfileError::NotAnInteger("ingest_price", "many".to_string())
    );
    assert_eq!(
        fault(&TESTNET.replace("86_400", "99_999_999_999_999_999_999")),
        ProfileError::OutOfRange("daily_window_secs")
    );
}

#[test]
fn unsound_budgets_are_refused() {
    assert_eq!(
        fault(&TESTNET.replace(" 100_000_000_000", " 26_199_999_999")),
        ProfileError::BudgetsTooSmall {
            burst: 26_199_999_999,
            daily: 10_000_000_000_000,
            dearest: 26_200_000_000,
        }
    );
    assert_eq!(
        fault(&TESTNET.replace("10_000_000_000_000", "99_999_999_999")),
        ProfileError::BurstAboveDaily {
            burst: 100_000_000_000,
            daily: 99_999_999_999,
        }
    );
    assert_eq!(
        fault(&TESTNET.replace("86_400", "60")),
        ProfileError::WindowsOutOfOrder
    );
}

#[test]
fn values_lose_their_comment_space_and_quotes() {
    assert_eq!(str_of("k=v", "k").as_deref(), Some("v"));
    assert_eq!(str_of("  k \t=  \"v w\"  # c", "k").as_deref(), Some("v w"));
    assert_eq!(str_of("k = # c", "k").as_deref(), Some(""));
    assert_eq!(str_of("k = \"v", "k").as_deref(), Some("v"));
    assert_eq!(str_of("k = \"\"", "k").as_deref(), Some(""));
    assert_eq!(str_of("k = \"", "k").as_deref(), Some(""));
    // One layer of quotes, no more.
    assert_eq!(str_of("k = \"\"v\"\"", "k").as_deref(), Some("\"v\""));
    assert_eq!(str_of("key = 1\nk = 2\nk = 3", "k").as_deref(), Some("2"));
    assert_eq!(str_of("# k = 1", "k"), None);
    assert_eq!(str_of("k 1", "k"), None);
    assert_eq!(str_of("k = \u{2003}ключ\u{3000}", "k").as_deref(), Some("ключ"));
}

#[test]
fn numbers_may_be_grouped() {
    assert_eq!(parse_number("0"), Some(0));
    assert_eq!(parse_number("+1_2__3_"), Some(123));
    assert_eq!(parse_number("_+7"), Some(7));
    assert_eq!(
        parse_number("340282366920938463463374607431768211455"),
        Some(u128::MAX)
    );
    assert_eq!(parse_number("340282366920938463463374607431768211456"), None);
    for s in ["", "_", "+", "++1", "-1", "1.0", "1 0", "0x10", "٣"] {
        assert_eq!(parse_number(s), None, "{s}");
    }
    assert_eq!(u128_of("a = 5", "a"), Ok(5));
    assert_eq!(u64_of("a = 18_446_744_073_709_551_615", "a"), Ok(u64::MAX));
    assert_eq!(
        u64_of("a = 18_446_744_073_709_551_616", "a"),
        Err(ProfileError::OutOfRange("a"))
    );
}

#[test]
fn lists_are_what_stands_between_the_brackets() {
    let list = |text: &str| list_of(text, "l");
    let of = |items: &[&str]| Some(items.iter().map(|s| s.to_string()).collect::<Vec<_>>());
    assert_eq!(list("l = [\"a\", \"b\"] # c"), of(&["a", "b"]));
    assert_eq!(list("  l = [ a,, \"\", b ,]"), of(&["a", "b"]));
    assert_eq!(list("l = []"), of(&[]));
    assert_eq!(list("l = \"a\""), of(&[]));
    assert_eq!(list("l = [\"a\""), of(&[]));
    assert_eq!(list("l = ] [x] [y]"), of(&["x"]));
    assert_eq!(list("l = [\"\"a\"\"]"), of(&["a"]));
    assert_eq!(list("x = [1]"), None);
    // The key is all that stands before the `=`.
    assert_eq!(list("x = [1]\nlong = [2]\nl = [3]\nl = [4]"), of(&["3"]));
    assert_eq!(list("long = [2]"), None);
    assert_eq!(list("l"), None);
    assert_eq!(list("l [2]"), None);
    assert_eq!(list("\tl=[2]"), of(&["2"]));
    assert_eq!(list_of("l[0] = [2]", "l[0]"), of(&["2"]));
    assert_eq!(list("l =\r\n[2]\r\n"), of(&[]));
    assert_eq!(list("l = [2]\r\nl = [3]\r\n"), of(&["2"]));
    assert_eq!(list(""), None);
}

#[test]
fn each_fault_has_its_message() {
    for (error, message) in [
        (ProfileError::Missing("games"), "missing `games` in config"),
        (
            ProfileError::NotAnInteger("ingest_price", "many".to_string()),
            "`ingest_price` = `many` is not an integer",
        ),
        (
            ProfileError::OutOfRange("daily_window_secs"),
            "`daily_window_secs` out of u64 range",
        ),
        (
            ProfileError::BudgetsTooSmall {
                burst: 0,
                daily: 10_203,
                dearest: u128::MAX,
            },
            "per-key budgets (burst 0, daily 10203) must cover the dearest single call \
             (340282366920938463463374607431768211455), else that call can never be forwarded",
        ),
        (
            ProfileError::BurstAboveDaily {
                burst: 456_789,
                daily: 9,
            },
            "burst_budget (456789) above daily_budget (9) makes the burst window dead weight",
        ),
        (
            ProfileError::WindowsOutOfOrder,
            "burst window must be shorter than the daily window",
        ),
    ] {
        assert_eq!(error.message(), message);
    }
}

#[test]
fn a_number_written_out_reads_back() {
    for n in [0u128, 9, 10, 99, 100, 1_234_567_890, u128::MAX] {
        let error = ProfileError::BurstAboveDaily { burst: n, daily: 0 };
        let text = error.message();
        let digits = text.split(['(', ')']).nth(1).unwrap_or("");
        assert_eq!(digits, n.to_string());
        assert_eq!(parse_number(digits), Some(n));
    }
}

#[test]
fn a_profile_knows_its_dearest_call() {
    assert_eq!(parse(TESTNET).dearest(), config::DEAREST_CALL);
    let dear_root = TESTNET.replace("  1_000_000_000", " 90_000_000_000");
    assert_eq!(parse(&dear_root).dearest(), 90_000_000_000);
}
