//! The fixed ASCII byte strings that the library's formats use: manifest
//! field markers, log-line markers, and the report's titles and headers.
//! Each constant exists as a spec sequence and as an executable builder
//! proved to produce exactly that sequence.

use vstd::prelude::*;

verus! {

/// The byte string `sha256:`.
pub open spec fn sha256_prefix() -> Seq<u8> {
    seq![115u8, 104u8, 97u8, 50u8, 53u8, 54u8, 58u8]
}

/// Builds the byte string `sha256:`.
pub fn sha256_prefix_bytes() -> (r: Vec<u8>)
    ensures
        r@ == sha256_prefix(),
{
    let mut v: Vec<u8> = Vec::new();
    v.push(115); v.push(104); v.push(97); v.push(50); v.push(53); v.push(54);
    v.push(58);
    assert(v@ =~= sha256_prefix());
    v
}

/// The byte string `, `.
pub open spec fn name_sep() -> Seq<u8> {
    seq![44u8, 32u8]
}

/// Builds the byte string `, `.
pub fn name_sep_bytes() -> (r: Vec<u8>)
    ensures
        r@ == name_sep(),
{
    let mut v: Vec<u8> = Vec::new();
    v.push(44); v.push(32);
    assert(v@ =~= name_sep());
    v
}

/// The byte string `library`.
pub open spec fn library_namespace() -> Seq<u8> {
    seq![108u8, 105u8, 98u8, 114u8, 97u8, 114u8, 121u8]
}

/// Builds the byte string `library`.
pub fn library_namespace_bytes() -> (r: Vec<u8>)
    ensures
        r@ == library_namespace(),
{
    let mut v: Vec<u8> = Vec::new();
    v.push(108); v.push(105); v.push(98); v.push(114); v.push(97); v.push(114);
    v.push(121);
    assert(v@ =~= library_namespace());
    v
}

/// The byte string `application/vnd.ollama.image.model`.
pub open spec fn model_media_type() -> Seq<u8> {
    seq![97u8, 112u8, 112u8, 108u8, 105u8, 99u8, 97u8, 116u8, 105u8, 111u8, 110u8, 47u8,
    118u8, 110u8, 100u8, 46u8, 111u8, 108u8, 108u8, 97u8, 109u8, 97u8, 46u8, 105u8, 109u8,
    97u8, 103u8, 101u8, 46u8, 109u8, 111u8, 100u8, 101u8, 108u8]
}

/// Builds the byte string `application/vnd.ollama.image.model`.
pub fn model_media_type_bytes() -> (r: Vec<u8>)
    ensures
        r@ == model_media_type(),
{
    let mut v: Vec<u8> = Vec::new();
    v.push(97); v.push(112); v.push(112); v.push(108); v.push(105); v.push(99);
    v.push(97); v.push(116); v.push(105); v.push(111); v.push(110); v.push(47);
    v.push(118); v.push(110); v.push(100); v.push(46); v.push(111); v.push(108);
    v.push(108); v.push(97); v.push(109); v.push(97); v.push(46); v.push(105);
    v.push(109); v.push(97); v.push(103); v.push(101); v.push(46); v.push(109);
    v.push(111); v.push(100); v.push(101); v.push(108);
    assert(v@ =~= model_media_type());
    v
}

/// The byte string `time=`.
pub open spec fn time_key() -> Seq<u8> {
    seq![116u8, 105u8, 109u8, 101u8, 61u8]
}

/// Builds the byte string `time=`.
pub fn time_key_bytes() -> (r: Vec<u8>)
    ensures
        r@ == time_key(),
{
    let mut v: Vec<u8> = Vec::new();
    v.push(116); v.push(105); v.push(109); v.push(101); v.push(61);
    assert(v@ =~= time_key());
    v
}

/// The byte string `llama_model_loader: loaded meta data`.
pub open spec fn load_marker() -> Seq<u8> {
    seq![108u8, 108u8, 97u8, 109u8, 97u8, 95u8, 109u8, 111u8, 100u8, 101u8, 108u8, 95u8,
    108u8, 111u8, 97u8, 100u8, 101u8, 114u8, 58u8, 32u8, 108u8, 111u8, 97u8, 100u8, 101u8,
    100u8, 32u8, 109u8, 101u8, 116u8, 97u8, 32u8, 100u8, 97u8, 116u8, 97u8]
}

/// Builds the byte string `llama_model_loader: loaded meta data`.
pub fn load_marker_bytes() -> (r: Vec<u8>)
    ensures
        r@ == load_marker(),
{
    let mut v: Vec<u8> = Vec::new();
    v.push(108); v.push(108); v.push(97); v.push(109); v.push(97); v.push(95);
    v.push(109); v.push(111); v.push(100); v.push(101); v.push(108); v.push(95);
    v.push(108); v.push(111); v.push(97); v.push(100); v.push(101); v.push(114);
    v.push(58); v.push(32); v.push(108); v.push(111); v.push(97); v.push(100);
    v.push(101); v.push(100); v.push(32); v.push(109); v.push(101); v.push(116);
    v.push(97); v.push(32); v.push(100); v.push(97); v.push(116); v.push(97);
    assert(v@ =~= load_marker());
    v
}

/// The byte string `sha256-`.
pub open spec fn sha256_token() -> Seq<u8> {
    seq![115u8, 104u8, 97u8, 50u8, 53u8, 54u8, 45u8]
}

/// Builds the byte string `sha256-`.
pub fn sha256_token_bytes() -> (r: Vec<u8>)
    ensures
        r@ == sha256_token(),
{
    let mut v: Vec<u8> = Vec::new();
    v.push(115); v.push(104); v.push(97); v.push(50); v.push(53); v.push(54);
    v.push(45);
    assert(v@ =~= sha256_token());
    v
}

/// The byte string `...-deleted`.
pub open spec fn deleted_tail() -> Seq<u8> {
    seq![46u8, 46u8, 46u8, 45u8, 100u8, 101u8, 108u8, 101u8, 116u8, 101u8, 100u8]
}

/// Builds the byte string `...-deleted`.
pub fn deleted_tail_bytes() -> (r: Vec<u8>)
    ensures
        r@ == deleted_tail(),
{
    let mut v: Vec<u8> = Vec::new();
    v.push(46); v.push(46); v.push(46); v.push(45); v.push(100); v.push(101);
    v.push(108); v.push(101); v.push(116); v.push(101); v.push(100);
    assert(v@ =~= deleted_tail());
    v
}

/// The byte string `-deleted`.
pub open spec fn deleted_suffix() -> Seq<u8> {
    seq![45u8, 100u8, 101u8, 108u8, 101u8, 116u8, 101u8, 100u8]
}

/// Builds the byte string `-deleted`.
pub fn deleted_suffix_bytes() -> (r: Vec<u8>)
    ensures
        r@ == deleted_suffix(),
{
    let mut v: Vec<u8> = Vec::new();
    v.push(45); v.push(100); v.push(101); v.push(108); v.push(101); v.push(116);
    v.push(101); v.push(100);
    assert(v@ =~= deleted_suffix());
    v
}

/// The byte string `Model`.
pub open spec fn hdr_model() -> Seq<u8> {
    seq![77u8, 111u8, 100u8, 101u8, 108u8]
}

/// Builds the byte string `Model`.
pub fn hdr_model_bytes() -> (r: Vec<u8>)
    ensures
        r@ == hdr_model(),
{
    let mut v: Vec<u8> = Vec::new();
    v.push(77); v.push(111); v.push(100); v.push(101); v.push(108);
    assert(v@ =~= hdr_model());
    v
}

/// The byte string `Last Used`.
pub open spec fn hdr_last_used() -> Seq<u8> {
    seq![76u8, 97u8, 115u8, 116u8, 32u8, 85u8, 115u8, 101u8, 100u8]
}

/// Builds the byte string `Last Used`.
pub fn hdr_last_used_bytes() -> (r: Vec<u8>)
    ensures
        r@ == hdr_last_used(),
{
    let mut v: Vec<u8> = Vec::new();
    v.push(76); v.push(97); v.push(115); v.push(116); v.push(32); v.push(85);
    v.push(115); v.push(101); v.push(100);
    assert(v@ =~= hdr_last_used());
    v
}

/// The byte string `Usage Count`.
pub open spec fn hdr_usage_count() -> Seq<u8> {
    seq![85u8, 115u8, 97u8, 103u8, 101u8, 32u8, 67u8, 111u8, 117u8, 110u8, 116u8]
}

/// Builds the byte string `Usage Count`.
pub fn hdr_usage_count_bytes() -> (r: Vec<u8>)
    ensures
        r@ == hdr_usage_count(),
{
    let mut v: Vec<u8> = Vec::new();
    v.push(85); v.push(115); v.push(97); v.push(103); v.push(101); v.push(32);
    v.push(67); v.push(111); v.push(117); v.push(110); v.push(116);
    assert(v@ =~= hdr_usage_count());
    v
}

/// The byte string `Size`.
pub open spec fn hdr_size() -> Seq<u8> {
    seq![83u8, 105u8, 122u8, 101u8]
}

/// Builds the byte string `Size`.
pub fn hdr_size_bytes() -> (r: Vec<u8>)
    ensures
        r@ == hdr_size(),
{
    let mut v: Vec<u8> = Vec::new();
    v.push(83); v.push(105); v.push(122); v.push(101);
    assert(v@ =~= hdr_size());
    v
}

/// The byte string ` GB`.
pub open spec fn gb_unit() -> Seq<u8> {
    seq![32u8, 71u8, 66u8]
}

/// Builds the byte string ` GB`.
pub fn gb_unit_bytes() -> (r: Vec<u8>)
    ensures
        r@ == gb_unit(),
{
    let mut v: Vec<u8> = Vec::new();
    v.push(32); v.push(71); v.push(66);
    assert(v@ =~= gb_unit());
    v
}

/// The byte string ` MB`.
pub open spec fn mb_unit() -> Seq<u8> {
    seq![32u8, 77u8, 66u8]
}

/// Builds the byte string ` MB`.
pub fn mb_unit_bytes() -> (r: Vec<u8>)
    ensures
        r@ == mb_unit(),
{
    let mut v: Vec<u8> = Vec::new();
    v.push(32); v.push(77); v.push(66);
    assert(v@ =~= mb_unit());
    v
}

/// The byte string `Active Models:`.
pub open spec fn title_active() -> Seq<u8> {
    seq![65u8, 99u8, 116u8, 105u8, 118u8, 101u8, 32u8, 77u8, 111u8, 100u8, 101u8, 108u8,
    115u8, 58u8]
}

/// Builds the byte string `Active Models:`.
pub fn title_active_bytes() -> (r: Vec<u8>)
    ensures
        r@ == title_active(),
{
    let mut v: Vec<u8> = Vec::new();
    v.push(65); v.push(99); v.push(116); v.push(105); v.push(118); v.push(101);
    v.push(32); v.push(77); v.push(111); v.push(100); v.push(101); v.push(108);
    v.push(115); v.push(58);
    assert(v@ =~= title_active());
    v
}

/// The byte string `Unlogged Models:`.
pub open spec fn title_unlogged() -> Seq<u8> {
    seq![85u8, 110u8, 108u8, 111u8, 103u8, 103u8, 101u8, 100u8, 32u8, 77u8, 111u8, 100u8,
    101u8, 108u8, 115u8, 58u8]
}

/// Builds the byte string `Unlogged Models:`.
pub fn title_unlogged_bytes() -> (r: Vec<u8>)
    ensures
        r@ == title_unlogged(),
{
    let mut v: Vec<u8> = Vec::new();
    v.push(85); v.push(110); v.push(108); v.push(111); v.push(103); v.push(103);
    v.push(101); v.push(100); v.push(32); v.push(77); v.push(111); v.push(100);
    v.push(101); v.push(108); v.push(115); v.push(58);
    assert(v@ =~= title_unlogged());
    v
}

/// The byte string `Deleted Models:`.
pub open spec fn title_deleted() -> Seq<u8> {
    seq![68u8, 101u8, 108u8, 101u8, 116u8, 101u8, 100u8, 32u8, 77u8, 111u8, 100u8, 101u8,
    108u8, 115u8, 58u8]
}

/// Builds the byte string `Deleted Models:`.
pub fn title_deleted_bytes() -> (r: Vec<u8>)
    ensures
        r@ == title_deleted(),
{
    let mut v: Vec<u8> = Vec::new();
    v.push(68); v.push(101); v.push(108); v.push(101); v.push(116); v.push(101);
    v.push(100); v.push(32); v.push(77); v.push(111); v.push(100); v.push(101);
    v.push(108); v.push(115); v.push(58);
    assert(v@ =~= title_deleted());
    v
}

/// The byte string `---------------`.
pub open spec fn unlogged_rule() -> Seq<u8> {
    seq![45u8, 45u8, 45u8, 45u8, 45u8, 45u8, 45u8, 45u8, 45u8, 45u8, 45u8, 45u8, 45u8, 45u8,
    45u8]
}

/// Builds the byte string `---------------`.
pub fn unlogged_rule_bytes() -> (r: Vec<u8>)
    ensures
        r@ == unlogged_rule(),
{
    let mut v: Vec<u8> = Vec::new();
    v.push(45); v.push(45); v.push(45); v.push(45); v.push(45); v.push(45); v.push(45);
    v.push(45); v.push(45); v.push(45); v.push(45); v.push(45); v.push(45); v.push(45);
    v.push(45);
    assert(v@ =~= unlogged_rule());
    v
}

} // verus!
