//! The constant texts of the renderings, as bytes.

use vstd::prelude::*;
use crate::walk::append;

verus! {

/// `recursive, not followed`
pub open spec fn recursive_note() -> Seq<u8> {
    seq![114u8, 101, 99, 117, 114, 115, 105, 118, 101, 44, 32, 110, 111, 116, 32, 102, 111, 108, 108, 111, 119, 101, 100]
}

/// Appends `recursive, not followed`.
pub fn put_recursive_note(out: &mut Vec<u8>)
    ensures
        final(out)@ == old(out)@ + recursive_note(),
{
    let s: [u8; 23] = [114, 101, 99, 117, 114, 115, 105, 118, 101, 44, 32, 110, 111, 116, 32, 102, 111, 108, 108, 111, 119, 101, 100];
    append(out, &s);
    assert(final(out)@ =~= old(out)@ + recursive_note());
}

/// `error opening dir`
pub open spec fn error_opening() -> Seq<u8> {
    seq![101u8, 114, 114, 111, 114, 32, 111, 112, 101, 110, 105, 110, 103, 32, 100, 105, 114]
}

/// Appends `error opening dir`.
pub fn put_error_opening(out: &mut Vec<u8>)
    ensures
        final(out)@ == old(out)@ + error_opening(),
{
    let s: [u8; 17] = [101, 114, 114, 111, 114, 32, 111, 112, 101, 110, 105, 110, 103, 32, 100, 105, 114];
    append(out, &s);
    assert(final(out)@ =~= old(out)@ + error_opening());
}

/// ` entries exceeds filelimit, not opening dir`
pub open spec fn over_limit_tail() -> Seq<u8> {
    seq![32u8, 101, 110, 116, 114, 105, 101, 115, 32, 101, 120, 99, 101, 101, 100, 115, 32, 102, 105, 108, 101, 108, 105, 109, 105, 116, 44, 32, 110, 111, 116, 32, 111, 112, 101, 110, 105, 110, 103, 32, 100, 105, 114]
}

/// Appends ` entries exceeds filelimit, not opening dir`.
pub fn put_over_limit_tail(out: &mut Vec<u8>)
    ensures
        final(out)@ == old(out)@ + over_limit_tail(),
{
    let s: [u8; 43] = [32, 101, 110, 116, 114, 105, 101, 115, 32, 101, 120, 99, 101, 101, 100, 115, 32, 102, 105, 108, 101, 108, 105, 109, 105, 116, 44, 32, 110, 111, 116, 32, 111, 112, 101, 110, 105, 110, 103, 32, 100, 105, 114];
    append(out, &s);
    assert(final(out)@ =~= old(out)@ + over_limit_tail());
}

/// `[Error reading symbolic link information]`
pub open spec fn link_read_error() -> Seq<u8> {
    seq![91u8, 69, 114, 114, 111, 114, 32, 114, 101, 97, 100, 105, 110, 103, 32, 115, 121, 109, 98, 111, 108, 105, 99, 32, 108, 105, 110, 107, 32, 105, 110, 102, 111, 114, 109, 97, 116, 105, 111, 110, 93]
}

/// Appends `[Error reading symbolic link information]`.
pub fn put_link_read_error(out: &mut Vec<u8>)
    ensures
        final(out)@ == old(out)@ + link_read_error(),
{
    let s: [u8; 41] = [91, 69, 114, 114, 111, 114, 32, 114, 101, 97, 100, 105, 110, 103, 32, 115, 121, 109, 98, 111, 108, 105, 99, 32, 108, 105, 110, 107, 32, 105, 110, 102, 111, 114, 109, 97, 116, 105, 111, 110, 93];
    append(out, &s);
    assert(final(out)@ =~= old(out)@ + link_read_error());
}

/// `00Tree.html`
pub open spec fn listing_file() -> Seq<u8> {
    seq![48u8, 48, 84, 114, 101, 101, 46, 104, 116, 109, 108]
}

/// Appends `00Tree.html`.
pub fn put_listing_file(out: &mut Vec<u8>)
    ensures
        final(out)@ == old(out)@ + listing_file(),
{
    let s: [u8; 11] = [48, 48, 84, 114, 101, 101, 46, 104, 116, 109, 108];
    append(out, &s);
    assert(final(out)@ =~= old(out)@ + listing_file());
}

/// ` bytes used in `
pub open spec fn bytes_used_in() -> Seq<u8> {
    seq![32u8, 98, 121, 116, 101, 115, 32, 117, 115, 101, 100, 32, 105, 110, 32]
}

/// Appends ` bytes used in `.
pub fn put_bytes_used_in(out: &mut Vec<u8>)
    ensures
        final(out)@ == old(out)@ + bytes_used_in(),
{
    let s: [u8; 15] = [32, 98, 121, 116, 101, 115, 32, 117, 115, 101, 100, 32, 105, 110, 32];
    append(out, &s);
    assert(final(out)@ =~= old(out)@ + bytes_used_in());
}

/// `{"type":"`
pub open spec fn j_type_open() -> Seq<u8> {
    seq![123u8, 34, 116, 121, 112, 101, 34, 58, 34]
}

/// Appends `{"type":"`.
pub fn put_j_type_open(out: &mut Vec<u8>)
    ensures
        final(out)@ == old(out)@ + j_type_open(),
{
    let s: [u8; 9] = [123, 34, 116, 121, 112, 101, 34, 58, 34];
    append(out, &s);
    assert(final(out)@ =~= old(out)@ + j_type_open());
}

/// `"`
pub open spec fn dquote() -> Seq<u8> {
    seq![34u8]
}

/// Appends `"`.
pub fn put_dquote(out: &mut Vec<u8>)
    ensures
        final(out)@ == old(out)@ + dquote(),
{
    let s: [u8; 1] = [34];
    append(out, &s);
    assert(final(out)@ =~= old(out)@ + dquote());
}

/// `,"name":"`
pub open spec fn j_name() -> Seq<u8> {
    seq![44u8, 34, 110, 97, 109, 101, 34, 58, 34]
}

/// Appends `,"name":"`.
pub fn put_j_name(out: &mut Vec<u8>)
    ensures
        final(out)@ == old(out)@ + j_name(),
{
    let s: [u8; 9] = [44, 34, 110, 97, 109, 101, 34, 58, 34];
    append(out, &s);
    assert(final(out)@ =~= old(out)@ + j_name());
}

/// `,"info":"`
pub open spec fn j_info() -> Seq<u8> {
    seq![44u8, 34, 105, 110, 102, 111, 34, 58, 34]
}

/// Appends `,"info":"`.
pub fn put_j_info(out: &mut Vec<u8>)
    ensures
        final(out)@ == old(out)@ + j_info(),
{
    let s: [u8; 9] = [44, 34, 105, 110, 102, 111, 34, 58, 34];
    append(out, &s);
    assert(final(out)@ =~= old(out)@ + j_info());
}

/// `\n`
pub open spec fn escaped_nl() -> Seq<u8> {
    seq![92u8, 110]
}

/// Appends `\n`.
pub fn put_escaped_nl(out: &mut Vec<u8>)
    ensures
        final(out)@ == old(out)@ + escaped_nl(),
{
    let s: [u8; 2] = [92, 110];
    append(out, &s);
    assert(final(out)@ =~= old(out)@ + escaped_nl());
}

/// `,"target":"`
pub open spec fn j_target() -> Seq<u8> {
    seq![44u8, 34, 116, 97, 114, 103, 101, 116, 34, 58, 34]
}

/// Appends `,"target":"`.
pub fn put_j_target(out: &mut Vec<u8>)
    ensures
        final(out)@ == old(out)@ + j_target(),
{
    let s: [u8; 11] = [44, 34, 116, 97, 114, 103, 101, 116, 34, 58, 34];
    append(out, &s);
    assert(final(out)@ =~= old(out)@ + j_target());
}

/// `,"contents":[`
pub open spec fn j_contents() -> Seq<u8> {
    seq![44u8, 34, 99, 111, 110, 116, 101, 110, 116, 115, 34, 58, 91]
}

/// Appends `,"contents":[`.
pub fn put_j_contents(out: &mut Vec<u8>)
    ensures
        final(out)@ == old(out)@ + j_contents(),
{
    let s: [u8; 13] = [44, 34, 99, 111, 110, 116, 101, 110, 116, 115, 34, 58, 91];
    append(out, &s);
    assert(final(out)@ =~= old(out)@ + j_contents());
}

/// `}`
pub open spec fn close_brace() -> Seq<u8> {
    seq![125u8]
}

/// Appends `}`.
pub fn put_close_brace(out: &mut Vec<u8>)
    ensures
        final(out)@ == old(out)@ + close_brace(),
{
    let s: [u8; 1] = [125];
    append(out, &s);
    assert(final(out)@ =~= old(out)@ + close_brace());
}

/// `{"error": "`
pub open spec fn j_error_open() -> Seq<u8> {
    seq![123u8, 34, 101, 114, 114, 111, 114, 34, 58, 32, 34]
}

/// Appends `{"error": "`.
pub fn put_j_error_open(out: &mut Vec<u8>)
    ensures
        final(out)@ == old(out)@ + j_error_open(),
{
    let s: [u8; 11] = [123, 34, 101, 114, 114, 111, 114, 34, 58, 32, 34];
    append(out, &s);
    assert(final(out)@ =~= old(out)@ + j_error_open());
}

/// `"}`
pub open spec fn j_error_close() -> Seq<u8> {
    seq![34u8, 125]
}

/// Appends `"}`.
pub fn put_j_error_close(out: &mut Vec<u8>)
    ensures
        final(out)@ == old(out)@ + j_error_close(),
{
    let s: [u8; 2] = [34, 125];
    append(out, &s);
    assert(final(out)@ =~= old(out)@ + j_error_close());
}

/// `]}`
pub open spec fn j_close() -> Seq<u8> {
    seq![93u8, 125]
}

/// Appends `]}`.
pub fn put_j_close(out: &mut Vec<u8>)
    ensures
        final(out)@ == old(out)@ + j_close(),
{
    let s: [u8; 2] = [93, 125];
    append(out, &s);
    assert(final(out)@ =~= old(out)@ + j_close());
}

/// `,`
pub open spec fn comma() -> Seq<u8> {
    seq![44u8]
}

/// Appends `,`.
pub fn put_comma(out: &mut Vec<u8>)
    ensures
        final(out)@ == old(out)@ + comma(),
{
    let s: [u8; 1] = [44];
    append(out, &s);
    assert(final(out)@ =~= old(out)@ + comma());
}

/// `,"inode":`
pub open spec fn j_inode() -> Seq<u8> {
    seq![44u8, 34, 105, 110, 111, 100, 101, 34, 58]
}

/// Appends `,"inode":`.
pub fn put_j_inode(out: &mut Vec<u8>)
    ensures
        final(out)@ == old(out)@ + j_inode(),
{
    let s: [u8; 9] = [44, 34, 105, 110, 111, 100, 101, 34, 58];
    append(out, &s);
    assert(final(out)@ =~= old(out)@ + j_inode());
}

/// `,"dev":`
pub open spec fn j_dev() -> Seq<u8> {
    seq![44u8, 34, 100, 101, 118, 34, 58]
}

/// Appends `,"dev":`.
pub fn put_j_dev(out: &mut Vec<u8>)
    ensures
        final(out)@ == old(out)@ + j_dev(),
{
    let s: [u8; 7] = [44, 34, 100, 101, 118, 34, 58];
    append(out, &s);
    assert(final(out)@ =~= old(out)@ + j_dev());
}

/// `,"size":`
pub open spec fn j_size() -> Seq<u8> {
    seq![44u8, 34, 115, 105, 122, 101, 34, 58]
}

/// Appends `,"size":`.
pub fn put_j_size(out: &mut Vec<u8>)
    ensures
        final(out)@ == old(out)@ + j_size(),
{
    let s: [u8; 8] = [44, 34, 115, 105, 122, 101, 34, 58];
    append(out, &s);
    assert(final(out)@ =~= old(out)@ + j_size());
}

/// `,"mode":"`
pub open spec fn j_mode() -> Seq<u8> {
    seq![44u8, 34, 109, 111, 100, 101, 34, 58, 34]
}

/// Appends `,"mode":"`.
pub fn put_j_mode(out: &mut Vec<u8>)
    ensures
        final(out)@ == old(out)@ + j_mode(),
{
    let s: [u8; 9] = [44, 34, 109, 111, 100, 101, 34, 58, 34];
    append(out, &s);
    assert(final(out)@ =~= old(out)@ + j_mode());
}

/// `","prot":"`
pub open spec fn j_prot() -> Seq<u8> {
    seq![34u8, 44, 34, 112, 114, 111, 116, 34, 58, 34]
}

/// Appends `","prot":"`.
pub fn put_j_prot(out: &mut Vec<u8>)
    ensures
        final(out)@ == old(out)@ + j_prot(),
{
    let s: [u8; 10] = [34, 44, 34, 112, 114, 111, 116, 34, 58, 34];
    append(out, &s);
    assert(final(out)@ =~= old(out)@ + j_prot());
}

/// `[`
pub open spec fn open_bracket() -> Seq<u8> {
    seq![91u8]
}

/// Appends `[`.
pub fn put_open_bracket(out: &mut Vec<u8>)
    ensures
        final(out)@ == old(out)@ + open_bracket(),
{
    let s: [u8; 1] = [91];
    append(out, &s);
    assert(final(out)@ =~= old(out)@ + open_bracket());
}

/// `]\n`
pub open spec fn j_end() -> Seq<u8> {
    seq![93u8, 10]
}

/// Appends `]\n`.
pub fn put_j_end(out: &mut Vec<u8>)
    ensures
        final(out)@ == old(out)@ + j_end(),
{
    let s: [u8; 2] = [93, 10];
    append(out, &s);
    assert(final(out)@ =~= old(out)@ + j_end());
}

/// `{"type":"report"`
pub open spec fn j_report() -> Seq<u8> {
    seq![123u8, 34, 116, 121, 112, 101, 34, 58, 34, 114, 101, 112, 111, 114, 116, 34]
}

/// Appends `{"type":"report"`.
pub fn put_j_report(out: &mut Vec<u8>)
    ensures
        final(out)@ == old(out)@ + j_report(),
{
    let s: [u8; 16] = [123, 34, 116, 121, 112, 101, 34, 58, 34, 114, 101, 112, 111, 114, 116, 34];
    append(out, &s);
    assert(final(out)@ =~= old(out)@ + j_report());
}

/// `,"directories":`
pub open spec fn j_dirs() -> Seq<u8> {
    seq![44u8, 34, 100, 105, 114, 101, 99, 116, 111, 114, 105, 101, 115, 34, 58]
}

/// Appends `,"directories":`.
pub fn put_j_dirs(out: &mut Vec<u8>)
    ensures
        final(out)@ == old(out)@ + j_dirs(),
{
    let s: [u8; 15] = [44, 34, 100, 105, 114, 101, 99, 116, 111, 114, 105, 101, 115, 34, 58];
    append(out, &s);
    assert(final(out)@ =~= old(out)@ + j_dirs());
}

/// `,"files":`
pub open spec fn j_files() -> Seq<u8> {
    seq![44u8, 34, 102, 105, 108, 101, 115, 34, 58]
}

/// Appends `,"files":`.
pub fn put_j_files(out: &mut Vec<u8>)
    ensures
        final(out)@ == old(out)@ + j_files(),
{
    let s: [u8; 9] = [44, 34, 102, 105, 108, 101, 115, 34, 58];
    append(out, &s);
    assert(final(out)@ =~= old(out)@ + j_files());
}

/// `    `
pub open spec fn indent_unit() -> Seq<u8> {
    seq![32u8, 32, 32, 32]
}

/// Appends `    `.
pub fn put_indent_unit(out: &mut Vec<u8>)
    ensures
        final(out)@ == old(out)@ + indent_unit(),
{
    let s: [u8; 4] = [32, 32, 32, 32];
    append(out, &s);
    assert(final(out)@ =~= old(out)@ + indent_unit());
}

/// `file`
pub open spec fn t_file() -> Seq<u8> {
    seq![102u8, 105, 108, 101]
}

/// Appends `file`.
pub fn put_t_file(out: &mut Vec<u8>)
    ensures
        final(out)@ == old(out)@ + t_file(),
{
    let s: [u8; 4] = [102, 105, 108, 101];
    append(out, &s);
    assert(final(out)@ =~= old(out)@ + t_file());
}

/// `directory`
pub open spec fn t_directory() -> Seq<u8> {
    seq![100u8, 105, 114, 101, 99, 116, 111, 114, 121]
}

/// Appends `directory`.
pub fn put_t_directory(out: &mut Vec<u8>)
    ensures
        final(out)@ == old(out)@ + t_directory(),
{
    let s: [u8; 9] = [100, 105, 114, 101, 99, 116, 111, 114, 121];
    append(out, &s);
    assert(final(out)@ =~= old(out)@ + t_directory());
}

/// `link`
pub open spec fn t_link() -> Seq<u8> {
    seq![108u8, 105, 110, 107]
}

/// Appends `link`.
pub fn put_t_link(out: &mut Vec<u8>)
    ensures
        final(out)@ == old(out)@ + t_link(),
{
    let s: [u8; 4] = [108, 105, 110, 107];
    append(out, &s);
    assert(final(out)@ =~= old(out)@ + t_link());
}

/// `char`
pub open spec fn t_char() -> Seq<u8> {
    seq![99u8, 104, 97, 114]
}

/// Appends `char`.
pub fn put_t_char(out: &mut Vec<u8>)
    ensures
        final(out)@ == old(out)@ + t_char(),
{
    let s: [u8; 4] = [99, 104, 97, 114];
    append(out, &s);
    assert(final(out)@ =~= old(out)@ + t_char());
}

/// `block`
pub open spec fn t_block() -> Seq<u8> {
    seq![98u8, 108, 111, 99, 107]
}

/// Appends `block`.
pub fn put_t_block(out: &mut Vec<u8>)
    ensures
        final(out)@ == old(out)@ + t_block(),
{
    let s: [u8; 5] = [98, 108, 111, 99, 107];
    append(out, &s);
    assert(final(out)@ =~= old(out)@ + t_block());
}

/// `socket`
pub open spec fn t_socket() -> Seq<u8> {
    seq![115u8, 111, 99, 107, 101, 116]
}

/// Appends `socket`.
pub fn put_t_socket(out: &mut Vec<u8>)
    ensures
        final(out)@ == old(out)@ + t_socket(),
{
    let s: [u8; 6] = [115, 111, 99, 107, 101, 116];
    append(out, &s);
    assert(final(out)@ =~= old(out)@ + t_socket());
}

/// `fifo`
pub open spec fn t_fifo() -> Seq<u8> {
    seq![102u8, 105, 102, 111]
}

/// Appends `fifo`.
pub fn put_t_fifo(out: &mut Vec<u8>)
    ensures
        final(out)@ == old(out)@ + t_fifo(),
{
    let s: [u8; 4] = [102, 105, 102, 111];
    append(out, &s);
    assert(final(out)@ =~= old(out)@ + t_fifo());
}

/// `unknown`
pub open spec fn t_unknown() -> Seq<u8> {
    seq![117u8, 110, 107, 110, 111, 119, 110]
}

/// Appends `unknown`.
pub fn put_t_unknown(out: &mut Vec<u8>)
    ensures
        final(out)@ == old(out)@ + t_unknown(),
{
    let s: [u8; 7] = [117, 110, 107, 110, 111, 119, 110];
    append(out, &s);
    assert(final(out)@ =~= old(out)@ + t_unknown());
}

/// `&nbsp;`
pub open spec fn nbsp() -> Seq<u8> {
    seq![38u8, 110, 98, 115, 112, 59]
}

/// Appends `&nbsp;`.
pub fn put_nbsp(out: &mut Vec<u8>)
    ensures
        final(out)@ == old(out)@ + nbsp(),
{
    let s: [u8; 6] = [38, 110, 98, 115, 112, 59];
    append(out, &s);
    assert(final(out)@ =~= old(out)@ + nbsp());
}

/// `&nbsp;&nbsp;&nbsp;`
pub open spec fn nbsp3() -> Seq<u8> {
    seq![38u8, 110, 98, 115, 112, 59, 38, 110, 98, 115, 112, 59, 38, 110, 98, 115, 112, 59]
}

/// Appends `&nbsp;&nbsp;&nbsp;`.
pub fn put_nbsp3(out: &mut Vec<u8>)
    ensures
        final(out)@ == old(out)@ + nbsp3(),
{
    let s: [u8; 18] = [38, 110, 98, 115, 112, 59, 38, 110, 98, 115, 112, 59, 38, 110, 98, 115, 112, 59];
    append(out, &s);
    assert(final(out)@ =~= old(out)@ + nbsp3());
}

/// `<a`
pub open spec fn a_open() -> Seq<u8> {
    seq![60u8, 97]
}

/// Appends `<a`.
pub fn put_a_open(out: &mut Vec<u8>)
    ensures
        final(out)@ == old(out)@ + a_open(),
{
    let s: [u8; 2] = [60, 97];
    append(out, &s);
    assert(final(out)@ =~= old(out)@ + a_open());
}

/// ` class="`
pub open spec fn class_open() -> Seq<u8> {
    seq![32u8, 99, 108, 97, 115, 115, 61, 34]
}

/// Appends ` class="`.
pub fn put_class_open(out: &mut Vec<u8>)
    ensures
        final(out)@ == old(out)@ + class_open(),
{
    let s: [u8; 8] = [32, 99, 108, 97, 115, 115, 61, 34];
    append(out, &s);
    assert(final(out)@ =~= old(out)@ + class_open());
}

/// `DIR`
pub open spec fn c_dir() -> Seq<u8> {
    seq![68u8, 73, 82]
}

/// Appends `DIR`.
pub fn put_c_dir(out: &mut Vec<u8>)
    ensures
        final(out)@ == old(out)@ + c_dir(),
{
    let s: [u8; 3] = [68, 73, 82];
    append(out, &s);
    assert(final(out)@ =~= old(out)@ + c_dir());
}

/// `EXEC`
pub open spec fn c_exec() -> Seq<u8> {
    seq![69u8, 88, 69, 67]
}

/// Appends `EXEC`.
pub fn put_c_exec(out: &mut Vec<u8>)
    ensures
        final(out)@ == old(out)@ + c_exec(),
{
    let s: [u8; 4] = [69, 88, 69, 67];
    append(out, &s);
    assert(final(out)@ =~= old(out)@ + c_exec());
}

/// `FIFO`
pub open spec fn c_fifo() -> Seq<u8> {
    seq![70u8, 73, 70, 79]
}

/// Appends `FIFO`.
pub fn put_c_fifo(out: &mut Vec<u8>)
    ensures
        final(out)@ == old(out)@ + c_fifo(),
{
    let s: [u8; 4] = [70, 73, 70, 79];
    append(out, &s);
    assert(final(out)@ =~= old(out)@ + c_fifo());
}

/// `SOCK`
pub open spec fn c_sock() -> Seq<u8> {
    seq![83u8, 79, 67, 75]
}

/// Appends `SOCK`.
pub fn put_c_sock(out: &mut Vec<u8>)
    ensures
        final(out)@ == old(out)@ + c_sock(),
{
    let s: [u8; 4] = [83, 79, 67, 75];
    append(out, &s);
    assert(final(out)@ =~= old(out)@ + c_sock());
}

/// `NORM`
pub open spec fn c_norm() -> Seq<u8> {
    seq![78u8, 79, 82, 77]
}

/// Appends `NORM`.
pub fn put_c_norm(out: &mut Vec<u8>)
    ensures
        final(out)@ == old(out)@ + c_norm(),
{
    let s: [u8; 4] = [78, 79, 82, 77];
    append(out, &s);
    assert(final(out)@ =~= old(out)@ + c_norm());
}

/// ` title="`
pub open spec fn title_open() -> Seq<u8> {
    seq![32u8, 116, 105, 116, 108, 101, 61, 34]
}

/// Appends ` title="`.
pub fn put_title_open(out: &mut Vec<u8>)
    ensures
        final(out)@ == old(out)@ + title_open(),
{
    let s: [u8; 8] = [32, 116, 105, 116, 108, 101, 61, 34];
    append(out, &s);
    assert(final(out)@ =~= old(out)@ + title_open());
}

/// ` href="`
pub open spec fn href_open() -> Seq<u8> {
    seq![32u8, 104, 114, 101, 102, 61, 34]
}

/// Appends ` href="`.
pub fn put_href_open(out: &mut Vec<u8>)
    ensures
        final(out)@ == old(out)@ + href_open(),
{
    let s: [u8; 7] = [32, 104, 114, 101, 102, 61, 34];
    append(out, &s);
    assert(final(out)@ =~= old(out)@ + href_open());
}

/// `/00Tree.html`
pub open spec fn tree_suffix() -> Seq<u8> {
    seq![47u8, 48, 48, 84, 114, 101, 101, 46, 104, 116, 109, 108]
}

/// Appends `/00Tree.html`.
pub fn put_tree_suffix(out: &mut Vec<u8>)
    ensures
        final(out)@ == old(out)@ + tree_suffix(),
{
    let s: [u8; 12] = [47, 48, 48, 84, 114, 101, 101, 46, 104, 116, 109, 108];
    append(out, &s);
    assert(final(out)@ =~= old(out)@ + tree_suffix());
}

/// `</a>`
pub open spec fn a_close() -> Seq<u8> {
    seq![60u8, 47, 97, 62]
}

/// Appends `</a>`.
pub fn put_a_close(out: &mut Vec<u8>)
    ensures
        final(out)@ == old(out)@ + a_close(),
{
    let s: [u8; 4] = [60, 47, 97, 62];
    append(out, &s);
    assert(final(out)@ =~= old(out)@ + a_close());
}

/// `<br>\n`
pub open spec fn br_nl() -> Seq<u8> {
    seq![60u8, 98, 114, 62, 10]
}

/// Appends `<br>\n`.
pub fn put_br_nl(out: &mut Vec<u8>)
    ensures
        final(out)@ == old(out)@ + br_nl(),
{
    let s: [u8; 5] = [60, 98, 114, 62, 10];
    append(out, &s);
    assert(final(out)@ =~= old(out)@ + br_nl());
}

/// `&lt;`
pub open spec fn lt_ent() -> Seq<u8> {
    seq![38u8, 108, 116, 59]
}

/// Appends `&lt;`.
pub fn put_lt_ent(out: &mut Vec<u8>)
    ensures
        final(out)@ == old(out)@ + lt_ent(),
{
    let s: [u8; 4] = [38, 108, 116, 59];
    append(out, &s);
    assert(final(out)@ =~= old(out)@ + lt_ent());
}

/// `&gt;`
pub open spec fn gt_ent() -> Seq<u8> {
    seq![38u8, 103, 116, 59]
}

/// Appends `&gt;`.
pub fn put_gt_ent(out: &mut Vec<u8>)
    ensures
        final(out)@ == old(out)@ + gt_ent(),
{
    let s: [u8; 4] = [38, 103, 116, 59];
    append(out, &s);
    assert(final(out)@ =~= old(out)@ + gt_ent());
}

/// `&amp;`
pub open spec fn amp_ent() -> Seq<u8> {
    seq![38u8, 97, 109, 112, 59]
}

/// Appends `&amp;`.
pub fn put_amp_ent(out: &mut Vec<u8>)
    ensures
        final(out)@ == old(out)@ + amp_ent(),
{
    let s: [u8; 5] = [38, 97, 109, 112, 59];
    append(out, &s);
    assert(final(out)@ =~= old(out)@ + amp_ent());
}

/// `&quot;`
pub open spec fn quot_ent() -> Seq<u8> {
    seq![38u8, 113, 117, 111, 116, 59]
}

/// Appends `&quot;`.
pub fn put_quot_ent(out: &mut Vec<u8>)
    ensures
        final(out)@ == old(out)@ + quot_ent(),
{
    let s: [u8; 6] = [38, 113, 117, 111, 116, 59];
    append(out, &s);
    assert(final(out)@ =~= old(out)@ + quot_ent());
}

/// `tree v2.3.2 `
pub open spec fn banner_head() -> Seq<u8> {
    seq![116u8, 114, 101, 101, 32, 118, 50, 46, 51, 46, 50, 32]
}

/// Appends `tree v2.3.2 `.
pub fn put_banner_head(out: &mut Vec<u8>)
    ensures
        final(out)@ == old(out)@ + banner_head(),
{
    let s: [u8; 12] = [116, 114, 101, 101, 32, 118, 50, 46, 51, 46, 50, 32];
    append(out, &s);
    assert(final(out)@ =~= old(out)@ + banner_head());
}

/// ` 1996 - 2026 by Steve Baker, Thomas Moore, Francesc Rocher, Florian Sesser, Kyosuke Tokoro`
pub open spec fn banner_tail() -> Seq<u8> {
    seq![32u8, 49, 57, 57, 54, 32, 45, 32, 50, 48, 50, 54, 32, 98, 121, 32, 83, 116, 101, 118, 101, 32, 66, 97, 107, 101, 114, 44, 32, 84, 104, 111, 109, 97, 115, 32, 77, 111, 111, 114, 101, 44, 32, 70, 114, 97, 110, 99, 101, 115, 99, 32, 82, 111, 99, 104, 101, 114, 44, 32, 70, 108, 111, 114, 105, 97, 110, 32, 83, 101, 115, 115, 101, 114, 44, 32, 75, 121, 111, 115, 117, 107, 101, 32, 84, 111, 107, 111, 114, 111]
}

/// Appends ` 1996 - 2026 by Steve Baker, Thomas Moore, Francesc Rocher, Florian Sesser, Kyosuke Tokoro`.
pub fn put_banner_tail(out: &mut Vec<u8>)
    ensures
        final(out)@ == old(out)@ + banner_tail(),
{
    let s: [u8; 90] = [32, 49, 57, 57, 54, 32, 45, 32, 50, 48, 50, 54, 32, 98, 121, 32, 83, 116, 101, 118, 101, 32, 66, 97, 107, 101, 114, 44, 32, 84, 104, 111, 109, 97, 115, 32, 77, 111, 111, 114, 101, 44, 32, 70, 114, 97, 110, 99, 101, 115, 99, 32, 82, 111, 99, 104, 101, 114, 44, 32, 70, 108, 111, 114, 105, 97, 110, 32, 83, 101, 115, 115, 101, 114, 44, 32, 75, 121, 111, 115, 117, 107, 101, 32, 84, 111, 107, 111, 114, 111];
    append(out, &s);
    assert(final(out)@ =~= old(out)@ + banner_tail());
}

/// `<br><br><p>\n\n`
pub open spec fn report_open() -> Seq<u8> {
    seq![60u8, 98, 114, 62, 60, 98, 114, 62, 60, 112, 62, 10, 10]
}

/// Appends `<br><br><p>\n\n`.
pub fn put_report_open(out: &mut Vec<u8>)
    ensures
        final(out)@ == old(out)@ + report_open(),
{
    let s: [u8; 13] = [60, 98, 114, 62, 60, 98, 114, 62, 60, 112, 62, 10, 10];
    append(out, &s);
    assert(final(out)@ =~= old(out)@ + report_open());
}

/// `\n</p>\n`
pub open spec fn report_close() -> Seq<u8> {
    seq![10u8, 60, 47, 112, 62, 10]
}

/// Appends `\n</p>\n`.
pub fn put_report_close(out: &mut Vec<u8>)
    ensures
        final(out)@ == old(out)@ + report_close(),
{
    let s: [u8; 6] = [10, 60, 47, 112, 62, 10];
    append(out, &s);
    assert(final(out)@ =~= old(out)@ + report_close());
}

/// The page head up to the charset.
pub open spec fn intro_doc() -> Seq<u8> {
    seq![60u8, 33, 68, 79, 67, 84, 89, 80, 69, 32, 104, 116, 109, 108, 62, 10, 60, 104, 116, 109, 108, 62, 10, 60, 104, 101, 97, 100, 62, 10, 32, 60, 109, 101, 116, 97, 32, 104, 116, 116, 112, 45, 101, 113, 117, 105, 118, 61, 34, 67, 111, 110, 116, 101, 110, 116, 45, 84, 121, 112, 101, 34, 32, 99, 111, 110, 116, 101, 110, 116, 61, 34, 116, 101, 120, 116, 47, 104, 116, 109, 108, 59, 32, 99, 104, 97, 114, 115, 101, 116, 61]
}

/// Appends the text of `intro_doc`.
pub fn put_intro_doc(out: &mut Vec<u8>)
    ensures
        final(out)@ == old(out)@ + intro_doc(),
{
    let s: [u8; 91] = [60, 33, 68, 79, 67, 84, 89, 80, 69, 32, 104, 116, 109, 108, 62, 10, 60, 104, 116, 109, 108, 62, 10, 60, 104, 101, 97, 100, 62, 10, 32, 60, 109, 101, 116, 97, 32, 104, 116, 116, 112, 45, 101, 113, 117, 105, 118, 61, 34, 67, 111, 110, 116, 101, 110, 116, 45, 84, 121, 112, 101, 34, 32, 99, 111, 110, 116, 101, 110, 116, 61, 34, 116, 101, 120, 116, 47, 104, 116, 109, 108, 59, 32, 99, 104, 97, 114, 115, 101, 116, 61];
    append(out, &s);
    assert(final(out)@ =~= old(out)@ + intro_doc());
}

/// From after the charset to the generator banner.
pub open spec fn intro_meta() -> Seq<u8> {
    seq![34u8, 62, 10, 32, 60, 109, 101, 116, 97, 32, 110, 97, 109, 101, 61, 34, 65, 117, 116, 104, 111, 114, 34, 32, 99, 111, 110, 116, 101, 110, 116, 61, 34, 77, 97, 100, 101, 32, 98, 121, 32, 39, 116, 114, 101, 101, 39, 34, 62, 10, 32, 60, 109, 101, 116, 97, 32, 110, 97, 109, 101, 61, 34, 71, 69, 78, 69, 82, 65, 84, 79, 82, 34, 32, 99, 111, 110, 116, 101, 110, 116, 61, 34]
}

/// Appends the text of `intro_meta`.
pub fn put_intro_meta(out: &mut Vec<u8>)
    ensures
        final(out)@ == old(out)@ + intro_meta(),
{
    let s: [u8; 83] = [34, 62, 10, 32, 60, 109, 101, 116, 97, 32, 110, 97, 109, 101, 61, 34, 65, 117, 116, 104, 111, 114, 34, 32, 99, 111, 110, 116, 101, 110, 116, 61, 34, 77, 97, 100, 101, 32, 98, 121, 32, 39, 116, 114, 101, 101, 39, 34, 62, 10, 32, 60, 109, 101, 116, 97, 32, 110, 97, 109, 101, 61, 34, 71, 69, 78, 69, 82, 65, 84, 79, 82, 34, 32, 99, 111, 110, 116, 101, 110, 116, 61, 34];
    append(out, &s);
    assert(final(out)@ =~= old(out)@ + intro_meta());
}

/// From after the banner to the title.
pub open spec fn intro_title() -> Seq<u8> {
    seq![34u8, 62, 10, 32, 60, 116, 105, 116, 108, 101, 62]
}

/// Appends the text of `intro_title`.
pub fn put_intro_title(out: &mut Vec<u8>)
    ensures
        final(out)@ == old(out)@ + intro_title(),
{
    let s: [u8; 11] = [34, 62, 10, 32, 60, 116, 105, 116, 108, 101, 62];
    append(out, &s);
    assert(final(out)@ =~= old(out)@ + intro_title());
}

/// From the end of the title through the style sheet to the heading.
pub open spec fn intro_style() -> Seq<u8> {
    seq![60u8, 47, 116, 105, 116, 108, 101, 62, 10, 32, 60, 115, 116, 121, 108, 101, 32, 116, 121, 112, 101, 61, 34, 116, 101, 120, 116, 47, 99, 115, 115, 34, 62, 10, 32, 32, 66, 79, 68, 89, 32, 123, 32, 102, 111, 110, 116, 45, 102, 97, 109, 105, 108, 121, 32, 58, 32, 109, 111, 110, 111, 115, 112, 97, 99, 101, 44, 32, 115, 97, 110, 115, 45, 115, 101, 114, 105, 102, 59, 32, 32, 99, 111, 108, 111, 114, 58, 32, 98, 108, 97, 99, 107, 59, 125, 10, 32, 32, 80, 32, 123, 32, 102, 111, 110, 116, 45, 102, 97, 109, 105, 108, 121, 32, 58, 32, 109, 111, 110, 111, 115, 112, 97, 99, 101, 44, 32, 115, 97, 110, 115, 45, 115, 101, 114, 105, 102, 59, 32, 99, 111, 108, 111, 114, 58, 32, 98, 108, 97, 99, 107, 59, 32, 109, 97, 114, 103, 105, 110, 58, 48, 112, 120, 59, 32, 112, 97, 100, 100, 105, 110, 103, 58, 32, 48, 112, 120, 59, 125, 10, 32, 32, 65, 58, 118, 105, 115, 105, 116, 101, 100, 32, 123, 32, 116, 101, 120, 116, 45, 100, 101, 99, 111, 114, 97, 116, 105, 111, 110, 32, 58, 32, 110, 111, 110, 101, 59, 32, 109, 97, 114, 103, 105, 110, 32, 58, 32, 48, 112, 120, 59, 32, 112, 97, 100, 100, 105, 110, 103, 32, 58, 32, 48, 112, 120, 59, 125, 10, 32, 32, 65, 58, 108, 105, 110, 107, 32, 32, 32, 32, 123, 32, 116, 101, 120, 116, 45, 100, 101, 99, 111, 114, 97, 116, 105, 111, 110, 32, 58, 32, 110, 111, 110, 101, 59, 32, 109, 97, 114, 103, 105, 110, 32, 58, 32, 48, 112, 120, 59, 32, 112, 97, 100, 100, 105, 110, 103, 32, 58, 32, 48, 112, 120, 59, 125, 10, 32, 32, 65, 58, 104, 111, 118, 101, 114, 32, 32, 32, 123, 32, 116, 101, 120, 116, 45, 100, 101, 99, 111, 114, 97, 116, 105, 111, 110, 58, 32, 117, 110, 100, 101, 114, 108, 105, 110, 101, 59, 32, 98, 97, 99, 107, 103, 114, 111, 117, 110, 100, 45, 99, 111, 108, 111, 114, 32, 58, 32, 121, 101, 108, 108, 111, 119, 59, 32, 109, 97, 114, 103, 105, 110, 32, 58, 32, 48, 112, 120, 59, 32, 112, 97, 100, 100, 105, 110, 103, 32, 58, 32, 48, 112, 120, 59, 125, 10, 32, 32, 65, 58, 97, 99, 116, 105, 118, 101, 32, 32, 123, 32, 109, 97, 114, 103, 105, 110, 32, 58, 32, 48, 112, 120, 59, 32, 112, 97, 100, 100, 105, 110, 103, 32, 58, 32, 48, 112, 120, 59, 125, 10, 32, 32, 46, 86, 69, 82, 83, 73, 79, 78, 32, 123, 32, 102, 111, 110, 116, 45, 115, 105, 122, 101, 58, 32, 115, 109, 97, 108, 108, 59, 32, 102, 111, 110, 116, 45, 102, 97, 109, 105, 108, 121, 32, 58, 32, 97, 114, 105, 97, 108, 44, 32, 115, 97, 110, 115, 45, 115, 101, 114, 105, 102, 59, 32, 125, 10, 32, 32, 46, 78, 79, 82, 77, 32, 32, 123, 32, 99, 111, 108, 111, 114, 58, 32, 98, 108, 97, 99, 107, 59, 32, 32, 125, 10, 32, 32, 46, 70, 73, 70, 79, 32, 32, 123, 32, 99, 111, 108, 111, 114, 58, 32, 112, 117, 114, 112, 108, 101, 59, 32, 125, 10, 32, 32, 46, 67, 72, 65, 82, 32, 32, 123, 32, 99, 111, 108, 111, 114, 58, 32, 121, 101, 108, 108, 111, 119, 59, 32, 125, 10, 32, 32, 46, 68, 73, 82, 32, 32, 32, 123, 32, 99, 111, 108, 111, 114, 58, 32, 98, 108, 117, 101, 59, 32, 32, 32, 125, 10, 32, 32, 46, 66, 76, 79, 67, 75, 32, 123, 32, 99, 111, 108, 111, 114, 58, 32, 121, 101, 108, 108, 111, 119, 59, 32, 125, 10, 32, 32, 46, 76, 73, 78, 75, 32, 32, 123, 32, 99, 111, 108, 111, 114, 58, 32, 97, 113, 117, 97, 59, 32, 32, 32, 125, 10, 32, 32, 46, 83, 79, 67, 75, 32, 32, 123, 32, 99, 111, 108, 111, 114, 58, 32, 102, 117, 99, 104, 115, 105, 97, 59, 125, 10, 32, 32, 46, 69, 88, 69, 67, 32, 32, 123, 32, 99, 111, 108, 111, 114, 58, 32, 103, 114, 101, 101, 110, 59, 32, 32, 125, 10, 32, 60, 47, 115, 116, 121, 108, 101, 62, 10, 60, 47, 104, 101, 97, 100, 62, 10, 60, 98, 111, 100, 121, 62, 10, 9, 60, 104, 49, 62]
}

/// Appends the text of `intro_style`.
pub fn put_intro_style(out: &mut Vec<u8>)
    ensures
        final(out)@ == old(out)@ + intro_style(),
{
    let s: [u8; 779] = [60, 47, 116, 105, 116, 108, 101, 62, 10, 32, 60, 115, 116, 121, 108, 101, 32, 116, 121, 112, 101, 61, 34, 116, 101, 120, 116, 47, 99, 115, 115, 34, 62, 10, 32, 32, 66, 79, 68, 89, 32, 123, 32, 102, 111, 110, 116, 45, 102, 97, 109, 105, 108, 121, 32, 58, 32, 109, 111, 110, 111, 115, 112, 97, 99, 101, 44, 32, 115, 97, 110, 115, 45, 115, 101, 114, 105, 102, 59, 32, 32, 99, 111, 108, 111, 114, 58, 32, 98, 108, 97, 99, 107, 59, 125, 10, 32, 32, 80, 32, 123, 32, 102, 111, 110, 116, 45, 102, 97, 109, 105, 108, 121, 32, 58, 32, 109, 111, 110, 111, 115, 112, 97, 99, 101, 44, 32, 115, 97, 110, 115, 45, 115, 101, 114, 105, 102, 59, 32, 99, 111, 108, 111, 114, 58, 32, 98, 108, 97, 99, 107, 59, 32, 109, 97, 114, 103, 105, 110, 58, 48, 112, 120, 59, 32, 112, 97, 100, 100, 105, 110, 103, 58, 32, 48, 112, 120, 59, 125, 10, 32, 32, 65, 58, 118, 105, 115, 105, 116, 101, 100, 32, 123, 32, 116, 101, 120, 116, 45, 100, 101, 99, 111, 114, 97, 116, 105, 111, 110, 32, 58, 32, 110, 111, 110, 101, 59, 32, 109, 97, 114, 103, 105, 110, 32, 58, 32, 48, 112, 120, 59, 32, 112, 97, 100, 100, 105, 110, 103, 32, 58, 32, 48, 112, 120, 59, 125, 10, 32, 32, 65, 58, 108, 105, 110, 107, 32, 32, 32, 32, 123, 32, 116, 101, 120, 116, 45, 100, 101, 99, 111, 114, 97, 116, 105, 111, 110, 32, 58, 32, 110, 111, 110, 101, 59, 32, 109, 97, 114, 103, 105, 110, 32, 58, 32, 48, 112, 120, 59, 32, 112, 97, 100, 100, 105, 110, 103, 32, 58, 32, 48, 112, 120, 59, 125, 10, 32, 32, 65, 58, 104, 111, 118, 101, 114, 32, 32, 32, 123, 32, 116, 101, 120, 116, 45, 100, 101, 99, 111, 114, 97, 116, 105, 111, 110, 58, 32, 117, 110, 100, 101, 114, 108, 105, 110, 101, 59, 32, 98, 97, 99, 107, 103, 114, 111, 117, 110, 100, 45, 99, 111, 108, 111, 114, 32, 58, 32, 121, 101, 108, 108, 111, 119, 59, 32, 109, 97, 114, 103, 105, 110, 32, 58, 32, 48, 112, 120, 59, 32, 112, 97, 100, 100, 105, 110, 103, 32, 58, 32, 48, 112, 120, 59, 125, 10, 32, 32, 65, 58, 97, 99, 116, 105, 118, 101, 32, 32, 123, 32, 109, 97, 114, 103, 105, 110, 32, 58, 32, 48, 112, 120, 59, 32, 112, 97, 100, 100, 105, 110, 103, 32, 58, 32, 48, 112, 120, 59, 125, 10, 32, 32, 46, 86, 69, 82, 83, 73, 79, 78, 32, 123, 32, 102, 111, 110, 116, 45, 115, 105, 122, 101, 58, 32, 115, 109, 97, 108, 108, 59, 32, 102, 111, 110, 116, 45, 102, 97, 109, 105, 108, 121, 32, 58, 32, 97, 114, 105, 97, 108, 44, 32, 115, 97, 110, 115, 45, 115, 101, 114, 105, 102, 59, 32, 125, 10, 32, 32, 46, 78, 79, 82, 77, 32, 32, 123, 32, 99, 111, 108, 111, 114, 58, 32, 98, 108, 97, 99, 107, 59, 32, 32, 125, 10, 32, 32, 46, 70, 73, 70, 79, 32, 32, 123, 32, 99, 111, 108, 111, 114, 58, 32, 112, 117, 114, 112, 108, 101, 59, 32, 125, 10, 32, 32, 46, 67, 72, 65, 82, 32, 32, 123, 32, 99, 111, 108, 111, 114, 58, 32, 121, 101, 108, 108, 111, 119, 59, 32, 125, 10, 32, 32, 46, 68, 73, 82, 32, 32, 32, 123, 32, 99, 111, 108, 111, 114, 58, 32, 98, 108, 117, 101, 59, 32, 32, 32, 125, 10, 32, 32, 46, 66, 76, 79, 67, 75, 32, 123, 32, 99, 111, 108, 111, 114, 58, 32, 121, 101, 108, 108, 111, 119, 59, 32, 125, 10, 32, 32, 46, 76, 73, 78, 75, 32, 32, 123, 32, 99, 111, 108, 111, 114, 58, 32, 97, 113, 117, 97, 59, 32, 32, 32, 125, 10, 32, 32, 46, 83, 79, 67, 75, 32, 32, 123, 32, 99, 111, 108, 111, 114, 58, 32, 102, 117, 99, 104, 115, 105, 97, 59, 125, 10, 32, 32, 46, 69, 88, 69, 67, 32, 32, 123, 32, 99, 111, 108, 111, 114, 58, 32, 103, 114, 101, 101, 110, 59, 32, 32, 125, 10, 32, 60, 47, 115, 116, 121, 108, 101, 62, 10, 60, 47, 104, 101, 97, 100, 62, 10, 60, 98, 111, 100, 121, 62, 10, 9, 60, 104, 49, 62];
    append(out, &s);
    assert(final(out)@ =~= old(out)@ + intro_style());
}

/// The end of the heading.
pub open spec fn intro_end() -> Seq<u8> {
    seq![60u8, 47, 104, 49, 62, 60, 112, 62, 10]
}

/// Appends the text of `intro_end`.
pub fn put_intro_end(out: &mut Vec<u8>)
    ensures
        final(out)@ == old(out)@ + intro_end(),
{
    let s: [u8; 9] = [60, 47, 104, 49, 62, 60, 112, 62, 10];
    append(out, &s);
    assert(final(out)@ =~= old(out)@ + intro_end());
}

/// The footer up to its first copyright sign.
pub open spec fn outro_a() -> Seq<u8> {
    seq![9u8, 60, 104, 114, 62, 10, 9, 60, 112, 32, 99, 108, 97, 115, 115, 61, 34, 86, 69, 82, 83, 73, 79, 78, 34, 62, 10, 9, 9, 32, 116, 114, 101, 101, 32, 118, 50, 46, 51, 46, 50, 32]
}

/// Appends the text of `outro_a`.
pub fn put_outro_a(out: &mut Vec<u8>)
    ensures
        final(out)@ == old(out)@ + outro_a(),
{
    let s: [u8; 42] = [9, 60, 104, 114, 62, 10, 9, 60, 112, 32, 99, 108, 97, 115, 115, 61, 34, 86, 69, 82, 83, 73, 79, 78, 34, 62, 10, 9, 9, 32, 116, 114, 101, 101, 32, 118, 50, 46, 51, 46, 50, 32];
    append(out, &s);
    assert(final(out)@ =~= old(out)@ + outro_a());
}

/// The footer's second stretch.
pub open spec fn outro_b() -> Seq<u8> {
    seq![32u8, 49, 57, 57, 54, 32, 45, 32, 50, 48, 50, 54, 32, 98, 121, 32, 83, 116, 101, 118, 101, 32, 66, 97, 107, 101, 114, 32, 97, 110, 100, 32, 84, 104, 111, 109, 97, 115, 32, 77, 111, 111, 114, 101, 32, 60, 98, 114, 62, 10, 9, 9, 32, 72, 84, 77, 76, 32, 111, 117, 116, 112, 117, 116, 32, 104, 97, 99, 107, 101, 100, 32, 97, 110, 100, 32, 99, 111, 112, 121, 108, 101, 102, 116, 32]
}

/// Appends the text of `outro_b`.
pub fn put_outro_b(out: &mut Vec<u8>)
    ensures
        final(out)@ == old(out)@ + outro_b(),
{
    let s: [u8; 85] = [32, 49, 57, 57, 54, 32, 45, 32, 50, 48, 50, 54, 32, 98, 121, 32, 83, 116, 101, 118, 101, 32, 66, 97, 107, 101, 114, 32, 97, 110, 100, 32, 84, 104, 111, 109, 97, 115, 32, 77, 111, 111, 114, 101, 32, 60, 98, 114, 62, 10, 9, 9, 32, 72, 84, 77, 76, 32, 111, 117, 116, 112, 117, 116, 32, 104, 97, 99, 107, 101, 100, 32, 97, 110, 100, 32, 99, 111, 112, 121, 108, 101, 102, 116, 32];
    append(out, &s);
    assert(final(out)@ =~= old(out)@ + outro_b());
}

/// The footer's third stretch.
pub open spec fn outro_c() -> Seq<u8> {
    seq![32u8, 49, 57, 57, 56, 32, 98, 121, 32, 70, 114, 97, 110, 99, 101, 115, 99, 32, 82, 111, 99, 104, 101, 114, 32, 60, 98, 114, 62, 10, 9, 9, 32, 74, 83, 79, 78, 32, 111, 117, 116, 112, 117, 116, 32, 104, 97, 99, 107, 101, 100, 32, 97, 110, 100, 32, 99, 111, 112, 121, 108, 101, 102, 116, 32]
}

/// Appends the text of `outro_c`.
pub fn put_outro_c(out: &mut Vec<u8>)
    ensures
        final(out)@ == old(out)@ + outro_c(),
{
    let s: [u8; 65] = [32, 49, 57, 57, 56, 32, 98, 121, 32, 70, 114, 97, 110, 99, 101, 115, 99, 32, 82, 111, 99, 104, 101, 114, 32, 60, 98, 114, 62, 10, 9, 9, 32, 74, 83, 79, 78, 32, 111, 117, 116, 112, 117, 116, 32, 104, 97, 99, 107, 101, 100, 32, 97, 110, 100, 32, 99, 111, 112, 121, 108, 101, 102, 116, 32];
    append(out, &s);
    assert(final(out)@ =~= old(out)@ + outro_c());
}

/// The footer's fourth stretch.
pub open spec fn outro_d() -> Seq<u8> {
    seq![32u8, 50, 48, 49, 52, 32, 98, 121, 32, 70, 108, 111, 114, 105, 97, 110, 32, 83, 101, 115, 115, 101, 114, 32, 60, 98, 114, 62, 10, 9, 9, 32, 67, 104, 97, 114, 115, 101, 116, 115, 32, 47, 32, 79, 83, 47, 50, 32, 115, 117, 112, 112, 111, 114, 116, 32]
}

/// Appends the text of `outro_d`.
pub fn put_outro_d(out: &mut Vec<u8>)
    ensures
        final(out)@ == old(out)@ + outro_d(),
{
    let s: [u8; 56] = [32, 50, 48, 49, 52, 32, 98, 121, 32, 70, 108, 111, 114, 105, 97, 110, 32, 83, 101, 115, 115, 101, 114, 32, 60, 98, 114, 62, 10, 9, 9, 32, 67, 104, 97, 114, 115, 101, 116, 115, 32, 47, 32, 79, 83, 47, 50, 32, 115, 117, 112, 112, 111, 114, 116, 32];
    append(out, &s);
    assert(final(out)@ =~= old(out)@ + outro_d());
}

/// The end of the footer and of the page.
pub open spec fn outro_e() -> Seq<u8> {
    seq![32u8, 50, 48, 48, 49, 32, 98, 121, 32, 75, 121, 111, 115, 117, 107, 101, 32, 84, 111, 107, 111, 114, 111, 10, 9, 60, 47, 112, 62, 10, 60, 47, 98, 111, 100, 121, 62, 10, 60, 47, 104, 116, 109, 108, 62, 10]
}

/// Appends the text of `outro_e`.
pub fn put_outro_e(out: &mut Vec<u8>)
    ensures
        final(out)@ == old(out)@ + outro_e(),
{
    let s: [u8; 46] = [32, 50, 48, 48, 49, 32, 98, 121, 32, 75, 121, 111, 115, 117, 107, 101, 32, 84, 111, 107, 111, 114, 111, 10, 9, 60, 47, 112, 62, 10, 60, 47, 98, 111, 100, 121, 62, 10, 60, 47, 104, 116, 109, 108, 62, 10];
    append(out, &s);
    assert(final(out)@ =~= old(out)@ + outro_e());
}

/// `iso-8859-1`
pub open spec fn default_charset() -> Seq<u8> {
    seq![105u8, 115, 111, 45, 56, 56, 53, 57, 45, 49]
}

/// Appends `iso-8859-1`.
pub fn put_default_charset(out: &mut Vec<u8>)
    ensures
        final(out)@ == old(out)@ + default_charset(),
{
    let s: [u8; 10] = [105, 115, 111, 45, 56, 56, 53, 57, 45, 49];
    append(out, &s);
    assert(final(out)@ =~= old(out)@ + default_charset());
}

/// `Directory Tree`
pub open spec fn default_title() -> Seq<u8> {
    seq![68u8, 105, 114, 101, 99, 116, 111, 114, 121, 32, 84, 114, 101, 101]
}

/// Appends `Directory Tree`.
pub fn put_default_title(out: &mut Vec<u8>)
    ensures
        final(out)@ == old(out)@ + default_title(),
{
    let s: [u8; 14] = [68, 105, 114, 101, 99, 116, 111, 114, 121, 32, 84, 114, 101, 101];
    append(out, &s);
    assert(final(out)@ =~= old(out)@ + default_title());
}

} // verus!
