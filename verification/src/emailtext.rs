//! The text the mailer sends: transactional payloads for the email
//! provider, and the HTML previews served by the test routes.

use crate::jsonstr::{push_escaped, spec_escape};
use crate::jsontext::{push_u64, spec_dec_digits};
use vstd::prelude::*;

verus! {

/// The links of the repls that failed, one per line.
pub open spec fn spec_failed_links(ids: Seq<Seq<char>>) -> Seq<char>
    decreases ids.len(),
{
    if ids.len() == 0 {
        Seq::empty()
    } else if ids.len() == 1 {
        "https://replit.com/replid/"@ + ids[0]
    } else {
        "https://replit.com/replid/"@ + ids[0] + seq!['\n'] + spec_failed_links(ids.skip(1))
    }
}

/// One more failed link goes on its own line.
pub proof fn lemma_failed_links_push(ids: Seq<Seq<char>>, id: Seq<char>)
    ensures
        spec_failed_links(ids.push(id)) == if ids.len() == 0 {
            "https://replit.com/replid/"@ + id
        } else {
            spec_failed_links(ids) + seq!['\n'] + "https://replit.com/replid/"@ + id
        },
    decreases ids.len(),
{
    if ids.len() == 0 {
        assert(ids.push(id).len() == 1);
        assert(ids.push(id)[0] == id);
    } else {
        assert(ids.push(id)[0] == ids[0]);
        assert(ids.push(id).skip(1) =~= ids.skip(1).push(id));
        lemma_failed_links_push(ids.skip(1), id);
        assert(spec_failed_links(ids.push(id)) =~= spec_failed_links(ids) + seq!['\n']
            + "https://replit.com/replid/"@ + id);
    }
}

/// Builds the one-link-per-line list for the repls that failed.
pub fn failed_links(ids: &Vec<String>) -> (r: String)
    ensures
        r@ == spec_failed_links(ids@.map_values(|s: String| s@)),
{
    let ghost mapped = ids@.map_values(|s: String| s@);
    let mut r = String::new();
    let n = ids.len();
    let mut i: usize = 0;
    while i < n
        invariant
            i <= n,
            n == ids@.len(),
            mapped == ids@.map_values(|s: String| s@),
            r@ == spec_failed_links(mapped.take(i as int)),
        decreases n - i,
    {
        if i > 0 {
            r.append("\n");
        }
        r.append("https://replit.com/replid/");
        r.append(ids[i].as_str());
        proof {
            reveal_strlit("\n");
            assert("\n"@ =~= seq!['\n']);
            assert(mapped.take(i as int + 1) =~= mapped.take(i as int).push(mapped[i as int]));
            lemma_failed_links_push(mapped.take(i as int), mapped[i as int]);
            if i == 0 {
                assert(mapped.take(0int) =~= Seq::<Seq<char>>::empty());
                assert(r@ =~= spec_failed_links(mapped.take(1int)));
            } else {
                assert(r@ =~= spec_failed_links(mapped.take(i as int + 1)));
            }
        }
        i = i + 1;
    }
    proof {
        assert(mapped.take(n as int) =~= mapped);
        if n == 0 {
            assert(r@ =~= spec_failed_links(mapped));
        }
    }
    r
}

/// The greeting email's payload.
pub open spec fn spec_greet_payload(to: Seq<char>, username: Seq<char>) -> Seq<char> {
    "{\"transactionalId\":\"cm0pegyzg01xquhjkf7r3fh85\",\"email\":\""@ + spec_escape(to)
        + "\",\"dataVariables\":{\"replitUsername\":\""@ + spec_escape(username) + "\"}}"@
}

/// Builds the greeting email's payload.
pub fn greet_email_payload(to: &str, username: &str) -> (r: String)
    ensures
        r@ == spec_greet_payload(to@, username@),
{
    let mut r = String::new();
    r.append("{\"transactionalId\":\"cm0pegyzg01xquhjkf7r3fh85\",\"email\":\"");
    push_escaped(&mut r, to);
    r.append("\",\"dataVariables\":{\"replitUsername\":\"");
    push_escaped(&mut r, username);
    r.append("\"}}");
    proof {
        assert(r@ =~= spec_greet_payload(to@, username@));
    }
    r
}

/// The full-success email's payload.
pub open spec fn spec_success_payload(
    to: Seq<char>,
    username: Seq<char>,
    repl_count_total: nat,
    link: Seq<char>,
) -> Seq<char> {
    "{\"transactionalId\":\"cm0pg42wh002u3ml1d4et51zp\",\"email\":\""@ + spec_escape(to)
        + "\",\"dataVariables\":{\"replitUsername\":\""@ + spec_escape(username)
        + "\",\"replCountTotal\":"@ + spec_dec_digits(repl_count_total)
        + ",\"link_export_download\":\""@ + spec_escape(link) + "\"}}"@
}

/// Builds the full-success email's payload.
pub fn success_email_payload(to: &str, username: &str, repl_count_total: usize, link: &str) -> (r:
    String)
    ensures
        r@ == spec_success_payload(to@, username@, repl_count_total as nat, link@),
{
    let mut r = String::new();
    r.append("{\"transactionalId\":\"cm0pg42wh002u3ml1d4et51zp\",\"email\":\"");
    push_escaped(&mut r, to);
    r.append("\",\"dataVariables\":{\"replitUsername\":\"");
    push_escaped(&mut r, username);
    r.append("\",\"replCountTotal\":");
    push_u64(&mut r, repl_count_total as u64);
    r.append(",\"link_export_download\":\"");
    push_escaped(&mut r, link);
    r.append("\"}}");
    proof {
        assert(r@ =~= spec_success_payload(to@, username@, repl_count_total as nat, link@));
    }
    r
}

/// The partial-success email's payload.
pub open spec fn spec_partial_success_payload(
    to: Seq<char>,
    username: Seq<char>,
    repl_count_total: nat,
    failed_ids: Seq<Seq<char>>,
    link: Seq<char>,
) -> Seq<char> {
    "{\"transactionalId\":\"cm0pgg7bw002gp8uk5ufqfvov\",\"email\":\""@ + spec_escape(to)
        + "\",\"dataVariables\":{\"replitUsername\":\""@ + spec_escape(username)
        + "\",\"replCountSuccess\":"@ + spec_dec_digits(
        (repl_count_total - failed_ids.len()) as nat,
    ) + ",\"replCountTotal\":"@ + spec_dec_digits(repl_count_total)
        + ",\"linkExportDownload\":\""@ + spec_escape(link) + "\",\"failedReplLinks\":\""@
        + spec_escape(spec_failed_links(failed_ids)) + "\"}}"@
}

/// Builds the partial-success email's payload; the failed repls are
/// subtracted from the total to report how many made it.
pub fn partial_success_email_payload(
    to: &str,
    username: &str,
    repl_count_total: usize,
    failed_ids: &Vec<String>,
    link: &str,
) -> (r: String)
    requires
        failed_ids@.len() <= repl_count_total,
    ensures
        r@ == spec_partial_success_payload(
            to@,
            username@,
            repl_count_total as nat,
            failed_ids@.map_values(|s: String| s@),
            link@,
        ),
{
    let mut r = String::new();
    r.append("{\"transactionalId\":\"cm0pgg7bw002gp8uk5ufqfvov\",\"email\":\"");
    push_escaped(&mut r, to);
    r.append("\",\"dataVariables\":{\"replitUsername\":\"");
    push_escaped(&mut r, username);
    r.append("\",\"replCountSuccess\":");
    push_u64(&mut r, (repl_count_total - failed_ids.len()) as u64);
    r.append(",\"replCountTotal\":");
    push_u64(&mut r, repl_count_total as u64);
    r.append(",\"linkExportDownload\":\"");
    push_escaped(&mut r, link);
    r.append("\",\"failedReplLinks\":\"");
    let links = failed_links(failed_ids);
    push_escaped(&mut r, links.as_str());
    r.append("\"}}");
    proof {
        assert(r@ =~= spec_partial_success_payload(
            to@,
            username@,
            repl_count_total as nat,
            failed_ids@.map_values(|s: String| s@),
            link@,
        ));
    }
    r
}

/// The no-repls email's payload.
pub open spec fn spec_no_repls_payload(to: Seq<char>, username: Seq<char>) -> Seq<char> {
    "{\"transactionalId\":\"cm0pgqger00bbo6ie7wyia98y\",\"email\":\""@ + spec_escape(to)
        + "\",\"dataVariables\":{\"replitUsername\":\""@ + spec_escape(username) + "\"}}"@
}

/// Builds the payload of the email sent when there was nothing to export.
pub fn no_repls_email_payload(to: &str, username: &str) -> (r: String)
    ensures
        r@ == spec_no_repls_payload(to@, username@),
{
    let mut r = String::new();
    r.append("{\"transactionalId\":\"cm0pgqger00bbo6ie7wyia98y\",\"email\":\"");
    push_escaped(&mut r, to);
    r.append("\",\"dataVariables\":{\"replitUsername\":\"");
    push_escaped(&mut r, username);
    r.append("\"}}");
    proof {
        assert(r@ =~= spec_no_repls_payload(to@, username@));
    }
    r
}

/// The failure email's payload.
pub open spec fn spec_failure_payload(to: Seq<char>, username: Seq<char>) -> Seq<char> {
    "{\"transactionalId\":\"cm0pgxpy303hf53mv955aoqls\",\"email\":\""@ + spec_escape(to)
        + "\",\"dataVariables\":{\"replitUsername\":\""@ + spec_escape(username) + "\"}}"@
}

/// Builds the payload of the email sent when every repl failed.
pub fn failure_email_payload(to: &str, username: &str) -> (r: String)
    ensures
        r@ == spec_failure_payload(to@, username@),
{
    let mut r = String::new();
    r.append("{\"transactionalId\":\"cm0pgxpy303hf53mv955aoqls\",\"email\":\"");
    push_escaped(&mut r, to);
    r.append("\",\"dataVariables\":{\"replitUsername\":\"");
    push_escaped(&mut r, username);
    r.append("\"}}");
    proof {
        assert(r@ =~= spec_failure_payload(to@, username@));
    }
    r
}

/// The plain-test preview page.
pub open spec fn spec_test_html(title: Seq<char>, name: Seq<char>) -> Seq<char> {
    "<h1>"@ + title + "</h1>\n<p>From "@ + name + "</p>"@
}

/// The greeting preview page.
pub open spec fn spec_greet_html(username: Seq<char>) -> Seq<char> {
    "<h1>Welcome, "@ + username + "!</h1>\n<p>Your workspace export has been queued.</p>"@
}

/// The full-success preview page.
pub open spec fn spec_success_html(username: Seq<char>, total: nat, link: Seq<char>) -> Seq<char> {
    "<h1>Your export is ready</h1>\n<p>"@ + username + ", all "@ + spec_dec_digits(total)
        + " repls are included.</p>\n<p><a href=\""@ + link + "\">Download</a></p>"@
}

/// The partial-success preview page.
pub open spec fn spec_partial_success_html(
    username: Seq<char>,
    success: nat,
    total: nat,
    link: Seq<char>,
    failed_ids: Seq<Seq<char>>,
) -> Seq<char> {
    "<h1>Your export is ready</h1>\n<p>"@ + username + ": "@ + spec_dec_digits(success) + " of "@
        + spec_dec_digits(total) + " repls made it.</p>\n<p><a href=\""@ + link
        + "\">Download</a></p>\n<pre>"@ + spec_failed_links(failed_ids) + "</pre>"@
}

/// Serves the plain-test preview with its fixed sample values.
pub fn test_test_email() -> (r: String)
    ensures
        r@ == spec_test_html("Hi there, tester!"@, "malted"@),
{
    let mut r = String::new();
    r.append("<h1>");
    r.append("Hi there, tester!");
    r.append("</h1>\n<p>From ");
    r.append("malted");
    r.append("</p>");
    proof {
        assert(r@ =~= spec_test_html("Hi there, tester!"@, "malted"@));
    }
    r
}

/// Serves the greeting preview with its fixed sample user.
pub fn greet_test_email() -> (r: String)
    ensures
        r@ == spec_greet_html("TestUser"@),
{
    let mut r = String::new();
    r.append("<h1>Welcome, ");
    r.append("TestUser");
    r.append("!</h1>\n<p>Your workspace export has been queued.</p>");
    proof {
        assert(r@ =~= spec_greet_html("TestUser"@));
    }
    r
}

/// Serves the full-success preview with its fixed sample values.
pub fn success_test_email() -> (r: String)
    ensures
        r@ == spec_success_html("TestUser"@, 22nat, "https://google.com"@),
{
    let mut r = String::new();
    r.append("<h1>Your export is ready</h1>\n<p>");
    r.append("TestUser");
    r.append(", all ");
    push_u64(&mut r, 22);
    r.append(" repls are included.</p>\n<p><a href=\"");
    r.append("https://google.com");
    r.append("\">Download</a></p>");
    proof {
        assert(r@ =~= spec_success_html("TestUser"@, 22nat, "https://google.com"@));
    }
    r
}

/// Serves the partial-success preview with its fixed sample values.
pub fn partial_success_test_email() -> (r: String)
    ensures
        r@ == spec_partial_success_html(
            "TestUser"@,
            20nat,
            22nat,
            "https://google.com"@,
            seq!["one"@, "two"@],
        ),
{
    let mut ids: Vec<String> = Vec::new();
    ids.push("one".to_owned());
    ids.push("two".to_owned());
    let mut r = String::new();
    r.append("<h1>Your export is ready</h1>\n<p>");
    r.append("TestUser");
    r.append(": ");
    push_u64(&mut r, 20);
    r.append(" of ");
    push_u64(&mut r, 22);
    r.append(" repls made it.</p>\n<p><a href=\"");
    r.append("https://google.com");
    r.append("\">Download</a></p>\n<pre>");
    let links = failed_links(&ids);
    r.append(links.as_str());
    r.append("</pre>");
    proof {
        assert(ids@.map_values(|s: String| s@) =~= seq!["one"@, "two"@]);
        assert(r@ =~= spec_partial_success_html(
            "TestUser"@,
            20nat,
            22nat,
            "https://google.com"@,
            seq!["one"@, "two"@],
        ));
    }
    r
}

} // verus!
