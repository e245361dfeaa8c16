use ggv::job::{Answer, Ask, Step};
use ggv::http::Response;
use ggv::prompt::{build_prompt, DEFAULT_DIFF_PROMPT};
use ggv::range::{find_first_parent, get_ref_label, EMPTY_TREE};
use ggv::server::{handle_connection, parse_request, Reply, Server};
use ggv::summary::{build_gia_args, read_gia_result, GIA_MISSING};
use ggv::theme::Theme;

const A: &str = "aaaaaaa1111111111111111111111111111111aa";
const B: &str = "bbbbbbb2222222222222222222222222222222bb";

fn server() -> Server {
    Server {
        repo_path: "/r".to_string(),
        repo_name: "r".to_string(),
        prompt: None,
        lang: "de-DE".to_string(),
        gia_audio: false,
        theme: Theme::Dark,
        max_diff_files: 2,
        gitlab_url: Some("https://gitlab.com/g/p".to_string()),
        diff_js: "/*js*/".to_string(),
        diff_css: "/*css*/".to_string(),
    }
}

fn answer(success: bool, stdout: &str) -> Answer {
    Answer {
        error: None,
        started: true,
        not_found: false,
        success,
        status: if success { "exit status: 0" } else { "exit status: 1" }.to_string(),
        stdout: stdout.to_string(),
        utf8: true,
        stderr: " oops \n".to_string(),
    }
}

fn ok(stdout: &str) -> Answer {
    answer(true, stdout)
}

fn no() -> Answer {
    answer(false, "")
}

fn broken(e: &str) -> Answer {
    let mut a = answer(false, "");
    a.error = Some(e.to_string());
    a.started = false;
    a
}

fn get(path: &str) -> String {
    format!("GET {path} HTTP/1.1")
}

/// What is asked for next, as text.
fn asked(path: &str, answers: Vec<Answer>) -> String {
    match handle_connection(&server(), &get(path), &answers) {
        Step::Ask(Ask::GitStatus(a)) => format!("status {}", a.join(" ")),
        Step::Ask(Ask::GitOutput(a)) => format!("output {}", a.join(" ")),
        Step::Ask(Ask::GitSpawn(a)) => format!("spawn {}", a.join(" ")),
        Step::Ask(Ask::Gia { args, input }) => format!("gia {} < {}", args.join("|"), input),
        Step::Ask(other) => format!("{:?}", other),
        Step::Done(reply, n) => format!("done {:?} {}", reply, n),
    }
}

/// The response, whether the graph is made anew, and how many answers it took.
fn replied(path: &str, answers: Vec<Answer>) -> (Response, bool, usize) {
    match handle_connection(&server(), &get(path), &answers) {
        Step::Done(Reply::Sent { response, regenerate }, n) => (response, regenerate, n),
        other => panic!("{:?}", other),
    }
}

#[test]
fn request_lines() {
    assert_eq!(parse_request("GET /a?b=c?d HTTP/1.1"), Some(("/a".to_string(), "b=c?d".to_string())));
    assert_eq!(parse_request("GET /a"), Some(("/a".to_string(), String::new())));
    assert_eq!(parse_request("POST /a HTTP/1.1"), None);
    assert_eq!(parse_request("GET"), None);
    assert_eq!(parse_request(""), None);
}

#[test]
fn other_methods_are_not_answered() {
    for line in ["POST /view HTTP/1.1", "", "GET"] {
        let step = handle_connection(&server(), line, &vec![ok("x")]);
        assert!(matches!(step, Step::Done(Reply::Closed, 0)));
    }
}

#[test]
fn unknown_paths() {
    let (r, again, n) = replied("/autosave", vec![]);
    assert_eq!((r.status, r.body.as_str(), again, n), (404, "Not Found", false, 0));
}

#[test]
fn heartbeats() {
    assert_eq!(asked("/heartbeat", vec![]), "Heartbeat");
    let (r, again, n) = replied("/heartbeat", vec![ok("")]);
    assert_eq!((r.status, r.body.as_str(), again, n), (200, "OK", false, 1));
}

#[test]
fn the_graph_is_served() {
    assert_eq!(asked("/view", vec![]), "ReadSvg");
    let (r, _, _) = replied("/view", vec![ok("<svg/>")]);
    assert_eq!(r.status, 200);
    assert!(r.body.contains("<body><svg/>"));
    let (r, _, _) = replied("/view", vec![no()]);
    assert_eq!((r.status, r.body.as_str()), (404, "SVG not yet available"));
}

#[test]
fn the_version_is_served() {
    assert_eq!(asked("/version", vec![]), "SvgTime");
    assert_eq!(replied("/version", vec![ok("1234")]).0.body, "1234");
    assert_eq!(replied("/version", vec![no()]).0.body, "0");
}

#[test]
fn wrong_parameters_are_refused_at_once() {
    let cases = [
        ("/checkout", "Invalid or missing 'sha'"),
        ("/checkout?sha=xyz", "Invalid or missing 'sha'"),
        ("/delete-branch?name=a%20b", "Invalid or missing 'name'"),
        ("/delete-tag", "Invalid or missing 'name'"),
        ("/diff?to=aaaaaaa", "Invalid or missing 'from' parameter"),
        ("/diff?from=aaaaaaa", "Invalid or missing 'to' parameter"),
        ("/log-summary?to=aaaaaaa", "Invalid or missing 'from'"),
        ("/log-summary?from=aaaaaaa", "Invalid or missing 'to'"),
        ("/log?from=aaaaaa&to=aaaaaaa", "Invalid or missing 'from'"),
        ("/diff2html?from=aaaaaaa&to=-x", "Invalid or missing 'to'"),
        ("/diff2html-single?commit=", "Invalid or missing 'commit'"),
    ];
    for (path, expected) in cases {
        for answers in [vec![], vec![ok("x"), ok("y")]] {
            let (r, again, n) = replied(path, answers);
            assert_eq!((r.status, r.body.as_str(), again, n), (400, expected, false, 0), "{path}");
        }
    }
}

#[test]
fn checking_out() {
    let path = "/checkout?sha=aaaaaaa";
    assert_eq!(asked(path, vec![]), "output -C /r branch --points-at aaaaaaa --format=%(refname:short)");
    assert_eq!(asked(path, vec![ok("\nmain\nother\n")]), "status -C /r checkout main");
    assert_eq!(asked(path, vec![ok("")]), "status -C /r checkout aaaaaaa");
    assert_eq!(asked(path, vec![broken("x")]), "status -C /r checkout aaaaaaa");
    let mut bytes = ok("main");
    bytes.utf8 = false;
    assert_eq!(asked(path, vec![bytes]), "status -C /r checkout aaaaaaa");
    let (r, again, n) = replied(path, vec![ok("main"), no()]);
    assert_eq!((r.status, r.body.as_str(), again, n), (200, "OK", true, 2));
}

#[test]
fn deleting_branches() {
    assert_eq!(asked("/delete-branch?name=a/b", vec![]), "status -C /r branch -D a/b");
    assert_eq!(asked("/delete-branch?name=o/a/b&scope=remote", vec![]), "status -C /r push o --delete a/b");
    assert_eq!(asked("/delete-branch?name=a&scope=remote", vec![]), "status -C /r push origin --delete a");
    let (r, again, n) = replied("/delete-branch?name=a&scope=other", vec![]);
    assert_eq!((r.status, again, n), (200, true, 0));
    let (r, again, n) = replied("/delete-branch?name=a", vec![no()]);
    assert_eq!((r.status, again, n), (200, true, 1));
}

#[test]
fn deleting_tags() {
    let path = "/delete-tag?name=v1";
    assert_eq!(asked(path, vec![]), "status -C /r tag -d v1");
    assert_eq!(asked(path, vec![ok("")]), "output -C /r remote");
    assert_eq!(asked(path, vec![ok(""), ok("o\nb\n")]), "status -C /r push o --delete v1");
    assert_eq!(asked(path, vec![ok(""), ok("o\nb\n"), ok("")]), "status -C /r push b --delete v1");
    let (r, again, n) = replied(path, vec![ok(""), ok("o\nb\n"), ok(""), no()]);
    assert_eq!((r.status, again, n), (200, true, 4));
    assert_eq!(replied(path, vec![ok(""), broken("x")]).2, 2);
}

#[test]
fn opening_the_difftool() {
    let path = format!("/diff?from={A}&to={B}");
    assert_eq!(asked(&path, vec![]), format!("status -C /r diff --quiet {A} {B}"));
    assert_eq!(asked(&path, vec![no()]), format!("spawn -C /r difftool -d {A} {B}"));
    assert_eq!(asked(&path, vec![broken("x")]), format!("spawn -C /r difftool -d {A} {B}"));
    let (r, again, _) = replied(&path, vec![no(), ok("")]);
    assert_eq!(r.body, "<html><body><script>window.close();</script></body></html>");
    assert!(!again);
    assert!(replied(&path, vec![ok("")]).0.body.contains("No Differences Found"));
}

#[test]
fn summarizing_differences() {
    let path = format!("/diff?from={A}&to={B}&ai=1&filter=*.rs+bad;");
    assert_eq!(asked(&path, vec![]), format!("status -C /r diff --quiet {A} {B} -- *.rs"));
    let mut answers = vec![no()];
    let mut script = vec![
        (ok("my prompt"), "LoadPrompt".to_string()),
        (no(), format!("status -C /r merge-base --is-ancestor {A} {B}")),
        (ok(" base \n"), format!("output -C /r merge-base {A} {B}")),
        (no(), format!("status -C /r merge-base --is-ancestor {A} {B}")),
        (ok("the diff"), format!("output -C /r diff -w {B} {A} -- *.rs")),
        (ok("the log"), format!("output -C /r log --pretty=format:commit %h%nRefs: %D%nAuthor: %an <%ae>%nDate: %ci%nSubject: %s%n --name-status ^base {A} {B}")),
        (ok("/tmp/meta"), "WriteMeta(6)".to_string()),
        (ok("HEAD -> main, tag: v1"), format!("output -C /r log -1 --pretty=format:%D {A}")),
        (ok(""), format!("output -C /r log -1 --pretty=format:%D {B}")),
        (ok("/tmp/head"), "WriteHeader(\"Use the following as the heading/title of your response: \\\"main (aaaaaaa) → bbbbbbb\\\"\")".to_string()),
    ];
    for (a, expected) in script.drain(..) {
        assert_eq!(asked(&path, answers.iter().map(copy).collect()), expected);
        answers.push(a);
    }
    let prompt = build_prompt("my prompt", "de-DE", false);
    assert_eq!(
        asked(&path, answers.iter().map(copy).collect()),
        format!("gia --markdown|{prompt}|-f|/tmp/head|-f|/tmp/meta < 5")
    );
    answers.push(ok(" **all** good \n"));
    assert_eq!(asked(&path, answers.iter().map(copy).collect()), "Remove(\"/tmp/head\")");
    answers.push(ok(""));
    assert_eq!(asked(&path, answers.iter().map(copy).collect()), "Remove(\"/tmp/meta\")");
    answers.push(ok(""));
    assert_eq!(
        asked(&path, answers.iter().map(copy).collect()),
        format!("status -C /r merge-base --is-ancestor {A} {B}")
    );
    answers.push(ok(""));
    assert_eq!(
        asked(&path, answers.iter().map(copy).collect()),
        format!("output -C /r diff --name-only -w {A} {B} -- *.rs")
    );
    let mut many: Vec<Answer> = answers.iter().map(copy).collect();
    many.push(ok("1\n2\n3\n"));
    let (r, _, n) = replied(&path, many);
    assert_eq!(n, 16);
    assert!(r.body.contains("<p><strong>all</strong> good</p>"));
    assert!(!r.body.contains("ggv-history"));
    answers.push(ok("1\n2\n"));
    assert_eq!(
        asked(&path, answers.iter().map(copy).collect()),
        format!("output -C /r diff -w {A} {B} -- *.rs")
    );
    answers.push(ok("+</script>"));
    answers.push(ok("base"));
    assert_eq!(
        asked(&path, answers.iter().map(copy).collect()),
        format!("output -C /r log --pretty=format:### %h, %an, %ar, %D%n%n%s%n%b%n ^base {A} {B}")
    );
    answers.push(ok("### c1, A, now, \n\nS\n"));
    assert_eq!(
        asked(&path, answers.iter().map(copy).collect()),
        format!("output -C /r log --format=COMMIT %h --name-only ^base {A} {B}")
    );
    answers.push(ok("COMMIT c1\nf\n"));
    let (r, again, n) = replied(&path, answers.iter().map(copy).collect());
    assert_eq!((r.status, again, n), (200, false, 20));
    assert!(r.body.contains("<p><strong>all</strong> good</p>"));
    assert!(r.body.contains("Diff2Html.html(\"+<\\/script>\", {"));
    assert!(r.body.contains("var active = \"*.rs bad;\";"));
    assert!(r.body.contains("<div class=\"subject\">S</div>"));
    assert!(r.body.contains("<script>/*js*/</script>"));
    assert!(r.body.contains("/*css*/"));
    answers.push(no());
    assert_eq!(replied(&path, answers).2, 20);
}

fn copy(a: &Answer) -> Answer {
    Answer {
        error: a.error.clone(),
        started: a.started,
        not_found: a.not_found,
        success: a.success,
        status: a.status.clone(),
        stdout: a.stdout.clone(),
        utf8: a.utf8,
        stderr: a.stderr.clone(),
    }
}

#[test]
fn default_prompt_without_a_file() {
    let path = format!("/diff?from={A}&to={B}&ai=1&nolog=1");
    let answers = vec![no(), no(), ok(""), ok(""), ok("diff"), ok(""), ok(""), no()];
    let prompt = build_prompt(DEFAULT_DIFF_PROMPT, "de-DE", false);
    assert_eq!(asked(&path, answers), format!("gia --markdown|{prompt} < 4"));
}

#[test]
fn summaries_that_fail_are_shown() {
    let path = format!("/diff?from={A}&to={B}&ai=1&nolog=1");
    let shown = |answers: Vec<Answer>| -> String {
        let mut all = vec![no(), ok("p")];
        all.extend(answers);
        all.push(broken("x"));
        all.push(ok("1\n2\n3\n"));
        replied(&path, all).0.body
    };
    assert!(shown(vec![broken("E")]).contains("Error resolving diff base: git merge-base –is-ancestor failed to start: E"));
    assert!(shown(vec![no(), broken("E")]).contains("Error resolving diff base: git merge-base failed to start: E"));
    assert!(shown(vec![no(), no()]).contains("Error resolving diff base: git merge-base exited with exit status: 1: oops"));
    assert!(shown(vec![no(), ok(" \n")]).contains("git merge-base returned empty output"));
    assert!(shown(vec![ok(""), ok(""), broken("E")]).contains("Error running git diff: E"));
    assert!(shown(vec![ok(""), ok(""), no()]).contains("git diff exited with exit status: 1: oops"));
    assert!(shown(vec![ok(""), ok(""), ok("")]).contains("No differences found between these commits."));
}

#[test]
fn cancelled_recordings_close_the_page() {
    let path = format!("/diff?from={A}&to={B}&ai=1&nolog=1");
    let answers = vec![
        no(),
        ok("p"),
        ok(""),
        ok(""),
        ok("diff"),
        ok(""),
        ok(""),
        no(),
        ok("x Recording cancelled by user y"),
    ];
    let (r, _, n) = replied(&path, answers);
    assert_eq!((r.body.as_str(), n), ("<script>window.close();</script>", 9));
}

#[test]
fn summarizing_logs() {
    let path = format!("/log-summary?from={A}&to={B}");
    assert_eq!(asked(&path, vec![]), format!("status -C /r diff --quiet {A} {B}"));
    let fails = |answers: Vec<Answer>| -> String {
        let mut all = vec![no()];
        all.extend(answers);
        all.push(broken("x"));
        all.push(ok("1\n2\n3\n"));
        replied(&path, all).0.body
    };
    assert!(fails(vec![broken("E")]).contains("Error resolving log base: git merge-base"));
    assert!(fails(vec![ok(""), broken("E")]).contains("Error running git log: E"));
    assert!(fails(vec![ok(""), no()]).contains("git log exited with exit status: 1: oops"));
    assert!(fails(vec![ok(""), ok("")]).contains("No commits found in this range."));
    let prompt = build_prompt(DEFAULT_DIFF_PROMPT, "de-DE", false);
    assert_eq!(
        asked(&path, vec![no(), ok(""), ok("log"), ok(""), ok(""), ok("/tmp/h")]),
        format!("gia --markdown|{prompt}|-f|/tmp/h < 2")
    );
}

#[test]
fn serving_the_log() {
    let path = format!("/log?from={A}&to={B}");
    assert_eq!(
        asked(&path, vec![no(), ok("")]),
        format!("output -C /r log --pretty=format:### %h, %an, %ar, %D%n%n%s%n%b%n ^{A} {A} {B}")
    );
    assert_eq!(
        asked(&path, vec![no(), ok(""), ok("### c, A, now, \n\nS\n")]),
        "output -C /r log --format=COMMIT %h --name-only ^aaaaaaa bbbbbbb"
    );
    let (r, _, _) = replied(&path, vec![no(), ok(""), ok("### c, A, now, \n\nS\n"), broken("x")]);
    assert!(r.body.contains("<span class=\"sha\">aaaaaaa</span>"));
    assert!(r.body.contains("0 files</span>"));
    let (r, _, _) = replied(&path, vec![no(), broken("<e>")]);
    assert_eq!(
        r.body,
        "<pre>Error resolving log base: git merge-base --is-ancestor failed to start: &lt;e&gt;</pre>"
    );
    let (r, _, _) = replied(&path, vec![no(), ok(""), broken("<e>")]);
    assert_eq!(r.body, "<pre>Error running git log: &lt;e&gt;</pre>");
}

#[test]
fn serving_a_range() {
    let path = format!("/diff2html?from={A}&to={B}");
    let mut answers = vec![no(), ok(""), ok("f\n"), ok("the diff"), no(), ok(""), ok("")];
    let (r, _, n) = replied(&path, answers.iter().map(copy).collect());
    assert_eq!((r.status, n), (200, 7));
    assert!(r.body.contains("<title>aaaaaaa..bbbbbbb</title>"));
    assert!(r.body.contains(&format!("fetch('/diff?from={A}&to={B}')")));
    assert!(r.body.contains(&format!("href=\"https://gitlab.com/g/p/-/compare/{A}...{B}\"")));
    assert!(r.body.contains("Diff2Html.html(\"the diff\", {"));
    assert!(r.body.contains("No commits found in this range."));
    assert_eq!(
        asked(&path, answers.iter().take(5).map(copy).collect()),
        format!("output -C /r log --pretty=format:### %h, %an, %ar, %D%n%n%s%n%b%n ^{A} {A} {B}")
    );
    answers[2] = ok("1\n2\n3\n");
    answers.remove(3);
    let (r, _, n) = replied(&path, answers);
    assert_eq!((r.status, n), (200, 6));
    assert!(r.body.contains("<strong>3 files</strong> changed, which exceeds the limit of <strong>2</strong>"));
    assert!(!r.body.contains("ggv-flt\""));
    let (r, _, _) = replied(&path, vec![no(), ok(""), ok(""), broken("E")]);
    assert_eq!((r.status, r.body.as_str()), (500, "git diff failed: E"));
}

#[test]
fn serving_one_commit() {
    let path = format!("/diff2html-single?commit={B}");
    assert_eq!(asked(&path, vec![]), format!("output -C /r log -1 --pretty=%P {B}"));
    let parents = format!("{A} ccccccc\n");
    assert_eq!(asked(&path, vec![ok(&parents)]), format!("status -C /r diff --quiet {A} {B}"));
    assert_eq!(
        asked(&path, vec![ok(&parents), no()]),
        format!("output -C /r rev-list --ancestry-path {B}..HEAD")
    );
    assert_eq!(
        asked(&path, vec![ok(&parents), no(), ok("")]),
        "output -C /r log --all --format=%H %P"
    );
    let rest = || vec![ok(""), ok(""), ok("d"), ok(""), ok(""), ok("")];
    let mut answers = vec![ok(&parents), no(), ok("ddd\neee\n")];
    answers.extend(rest());
    let (r, _, n) = replied(&path, answers);
    assert_eq!((r.status, n), (200, 9));
    assert!(r.body.contains("var newer = 'eee';"));
    assert!(r.body.contains(&format!("var older = '{A}';")));
    let mut answers = vec![ok(""), no(), no(), ok(&format!("x1 y\nx2 z bbbbbbb2\n"))];
    answers.extend(rest());
    let (r, _, _) = replied(&path, answers);
    assert!(r.body.contains("var newer = 'x2';"));
    assert!(r.body.contains("var older = null;"));
    assert!(r.body.contains("<title>4b825dc..bbbbbbb</title>"));
    let mut answers = vec![ok(""), no(), no(), ok("x1 y\n\nx2 bbbbbbb2\n")];
    answers.extend(rest());
    assert!(replied(&path, answers).0.body.contains("var newer = null;"));
    let mut answers = vec![ok(""), no(), broken("x")];
    answers.extend(rest());
    assert!(replied(&path, answers).0.body.contains("var newer = null;"));
    assert!(replied(&path, vec![ok(&parents), ok("")]).0.body.contains("aaaaaaa &rarr; bbbbbbb are identical."));
    assert_eq!(find_first_parent(&broken("x")), EMPTY_TREE);
}

#[test]
fn labels_of_commits() {
    assert_eq!(get_ref_label(A, &ok("HEAD -> main, origin/main")), "main (aaaaaaa)");
    assert_eq!(get_ref_label(A, &ok("HEAD, tag: v1")), "tag: v1 (aaaaaaa)");
    assert_eq!(get_ref_label(A, &ok("HEAD")), "aaaaaaa");
    assert_eq!(get_ref_label(A, &ok(" ")), "aaaaaaa");
    assert_eq!(get_ref_label(A, &broken("x")), "aaaaaaa");
}

#[test]
fn arguments_of_the_ai_tool() {
    assert_eq!(build_gia_args("p", false, None, None), ["--markdown", "p"]);
    let args = build_gia_args("p", true, Some("h"), Some("m"));
    assert_eq!(args[2], "-a");
    assert_eq!(args[3], "--audio-dialog-text");
    assert!(args[4].starts_with("A%20Git%20diff%20is%20being%20analyzed"));
    assert_eq!(&args[5..], ["-f", "h", "-f", "m"]);
}

#[test]
fn results_of_the_ai_tool() {
    assert_eq!(read_gia_result(&ok(" x \n")), "x");
    assert_eq!(read_gia_result(&ok(" \n")), "oops");
    assert_eq!(read_gia_result(&ok("Recording cancelled by user")), "");
    let mut a = broken("E");
    assert_eq!(read_gia_result(&a), "Error starting gia: E");
    a.not_found = true;
    assert_eq!(read_gia_result(&a), GIA_MISSING);
    a.started = true;
    assert_eq!(read_gia_result(&a), "Error waiting for gia: E");
}

#[test]
fn twenty_answers_are_enough() {
    let paths = [
        "/heartbeat".to_string(),
        "/view".to_string(),
        "/version".to_string(),
        "/checkout?sha=aaaaaaa".to_string(),
        "/delete-branch?name=a".to_string(),
        format!("/diff?from={A}&to={B}"),
        format!("/diff?from={A}&to={B}&ai=1"),
        format!("/log-summary?from={A}&to={B}"),
        format!("/log?from={A}&to={B}"),
        format!("/diff2html?from={A}&to={B}"),
        format!("/diff2html-single?commit={A}"),
    ];
    for path in paths {
        for bits in 0..8 {
            let answers: Vec<Answer> = (0..20)
                .map(|i| answer((bits >> (i % 3)) & 1 == 1, "x"))
                .collect();
            let first = replied(&path, answers.iter().map(copy).collect());
            let mut more: Vec<Answer> = answers;
            more.push(no());
            let second = replied(&path, more);
            assert_eq!(first.0.body, second.0.body, "{path}");
            assert_eq!(first.2, second.2);
        }
    }
}
