//! The command line handed to the client process.
//!
//! The PAC script is passed to the browser engine as a `data:` URL on the
//! command line, unless the command line already names a PAC URL.

use vstd::prelude::*;
use crate::config::{generate_pac_script, pac_script, Config};
use crate::text::{contains, occurs_at, str_contains};

verus! {

/// The standard Base64 alphabet with padding (RFC 4648), as the `base64`
/// crate's `STANDARD` engine encodes `data`.
pub uninterp spec fn base64_standard(data: Seq<u8>) -> Seq<char>;

/// `base64::Engine::encode` with the `STANDARD` engine.  The contract names
/// the result only; the encoding itself is not stated.
#[verifier::external_body]
fn encode_base64(data: &[u8]) -> (encoded: String)
    ensures
        encoded@ == base64_standard(data@),
{
    base64::Engine::encode(&base64::engine::general_purpose::STANDARD, data)
}

/// The switch that names a PAC URL.
pub open spec fn pac_switch() -> Seq<char> {
    "--proxy-pac-url"@
}

/// The text appended for a PAC script whose UTF-8 bytes are `script_bytes`.
pub open spec fn pac_argument(script_bytes: Seq<u8>) -> Seq<char> {
    " --proxy-pac-url=\"data:application/x-ns-proxy-autoconfig;base64,"@ + base64_standard(script_bytes)
        + "\""@
}

/// The command line with the PAC script attached, unless a PAC URL is already named.
pub open spec fn command_line_with_pac(cmd_line: Seq<char>, script_bytes: Seq<u8>) -> Seq<char> {
    if contains(cmd_line, pac_switch()) {
        cmd_line
    } else {
        cmd_line + pac_argument(script_bytes)
    }
}

/// Attaches a PAC script to a command line.
pub fn build_command_line(cmd_line: &str, pac_script_text: &str) -> (r: String)
    ensures
        r@ == command_line_with_pac(cmd_line@, vstd::utf8::encode_utf8(pac_script_text@)),
        contains(cmd_line@, "--proxy-pac-url"@) ==> r@ == cmd_line@,
        !contains(cmd_line@, "--proxy-pac-url"@) ==> r@ == cmd_line@
            + " --proxy-pac-url=\"data:application/x-ns-proxy-autoconfig;base64,"@
            + base64_standard(vstd::utf8::encode_utf8(pac_script_text@)) + "\""@,
{
    let mut r = cmd_line.to_owned();
    if str_contains(cmd_line, "--proxy-pac-url") {
        return r;
    }
    let encoded = encode_base64(pac_script_text.as_bytes());
    r.append(" --proxy-pac-url=\"data:application/x-ns-proxy-autoconfig;base64,");
    r.append(encoded.as_str());
    r.append("\"");
    r
}

/// The UTF-8 bytes of the PAC script of a configuration.
pub open spec fn pac_script_bytes(config: Config) -> Seq<u8> {
    vstd::utf8::encode_utf8(pac_script(config))
}

/// The client's command line, with the PAC script of `config` attached.
pub fn command_line_for_config(cmd_line: &str, config: &Config) -> (r: String)
    ensures
        r@ == command_line_with_pac(cmd_line@, pac_script_bytes(*config)),
{
    let script = generate_pac_script(config);
    build_command_line(cmd_line, script.as_str())
}

/// A process of the client is its main process unless its command line names a `--type=`.
pub fn is_main_process(cmd_line: &str) -> (main: bool)
    ensures
        main == !contains(cmd_line@, "--type="@),
{
    !str_contains(cmd_line, "--type=")
}

/// Attaching twice attaches once: a command line that already carries a PAC
/// argument is left as it is, whatever script is offered the second time.
pub proof fn lemma_command_line_idempotent(cmd_line: Seq<char>, first: Seq<u8>, second: Seq<u8>)
    ensures
        command_line_with_pac(command_line_with_pac(cmd_line, first), second)
            == command_line_with_pac(cmd_line, first),
{
    let once = command_line_with_pac(cmd_line, first);
    if !contains(cmd_line, pac_switch()) {
        reveal_strlit("--proxy-pac-url");
        reveal_strlit(" --proxy-pac-url=\"data:application/x-ns-proxy-autoconfig;base64,");
        let i: int = cmd_line.len() as int + 1;
        assert(once.subrange(i, i + pac_switch().len()) =~= pac_switch());
        assert(occurs_at(once, pac_switch(), i));
    }
}

/// Attaching keeps the given command line as a prefix.
pub proof fn lemma_command_line_extends(cmd_line: Seq<char>, script_bytes: Seq<u8>)
    ensures
        command_line_with_pac(cmd_line, script_bytes).subrange(0, cmd_line.len() as int) == cmd_line,
{
    assert(command_line_with_pac(cmd_line, script_bytes).subrange(0, cmd_line.len() as int) =~= cmd_line);
}

/// Every command line that names no PAC URL, whatever other switches it
/// carries (`--type=` of a renderer or utility process included), gets the
/// script appended as a Base64 `data:` URL.
pub proof fn lemma_pac_argument_appended(cmd_line: Seq<char>, script_bytes: Seq<u8>)
    requires
        !contains(cmd_line, "--proxy-pac-url"@),
    ensures
        command_line_with_pac(cmd_line, script_bytes) == cmd_line
            + " --proxy-pac-url=\"data:application/x-ns-proxy-autoconfig;base64,"@ + base64_standard(script_bytes)
            + "\""@,
        command_line_with_pac(cmd_line, script_bytes).len() > cmd_line.len(),
{
    reveal_strlit(" --proxy-pac-url=\"data:application/x-ns-proxy-autoconfig;base64,");
}

/// The text appended for a script is the same for every command line that
/// names no PAC URL: it depends on the script alone.
pub proof fn lemma_pac_argument_independent_of_command_line(a: Seq<char>, b: Seq<char>, script_bytes: Seq<u8>)
    requires
        !contains(a, "--proxy-pac-url"@),
        !contains(b, "--proxy-pac-url"@),
    ensures
        command_line_with_pac(a, script_bytes).skip(a.len() as int)
            == command_line_with_pac(b, script_bytes).skip(b.len() as int),
{
    assert(command_line_with_pac(a, script_bytes).skip(a.len() as int) =~= pac_argument(script_bytes));
    assert(command_line_with_pac(b, script_bytes).skip(b.len() as int) =~= pac_argument(script_bytes));
}

} // verus!
