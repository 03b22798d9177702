//! Reconciliation of broadcast transaction logs with deployment records.
//!
//! Each broadcast run file holds a transaction list and a `returns` payload.
//! When the payload's `newDeployments` entry is typed
//! `struct DeployerDeployment[]`, its printed value is scanned for
//! brace-delimited groups, one per deployment record.  A group, after its
//! escaped and doubled quotes are dropped, splits on `", "` into
//! `field: value` pairs whose values are, in order: name, address, bytecode,
//! constructor-call data, artifact path, deployment context and chain id.  A
//! record in the reserved `void` context is not tracked.  Every other record
//! is joined by address against the transaction list — the last transaction
//! for an address wins — to recover calldata, arguments and the transaction
//! hash, and filed under its (context, name) key, a later record replacing
//! an earlier one.

use vstd::map::*;
use vstd::prelude::*;

use crate::depmap::{dep_key, DeploymentMap};
use crate::text::{
    chars_of, copy_range, eq_chars, find2, find_c, find_char_from, lemma_find_c_bound, remove2,
    remove2_exec, split2, split2_exec, string_of, views_of,
};
use crate::types::{DeploymentModel, DeploymentObject, ParseError};

verus! {

/// One submitted transaction, as recorded in a broadcast log.
#[derive(Clone, Debug, PartialEq)]
pub struct Transaction {
    pub tx_type: String,
    pub from: String,
    pub gas: String,
    pub value: Option<String>,
    /// Raw calldata.
    pub data: String,
    pub nonce: String,
}

/// The ghost model of a transaction.
pub struct TransactionModel {
    pub tx_type: Seq<char>,
    pub from: Seq<char>,
    pub gas: Seq<char>,
    pub value: Option<Seq<char>>,
    pub data: Seq<char>,
    pub nonce: Seq<char>,
}

impl View for Transaction {
    type V = TransactionModel;

    open spec fn view(&self) -> TransactionModel {
        TransactionModel {
            tx_type: self.tx_type@,
            from: self.from@,
            gas: self.gas@,
            value: self.value.deep_view(),
            data: self.data@,
            nonce: self.nonce@,
        }
    }
}

/// One transaction result of a broadcast run.
#[derive(Clone, Debug, PartialEq)]
pub struct TransactionResult {
    pub hash: String,
    pub transaction_type: String,
    pub contract_name: Option<String>,
    pub contract_address: Option<String>,
    pub arguments: Option<Vec<String>>,
    pub transaction: Transaction,
    pub function: Option<String>,
}

/// The ghost model of a transaction result.
pub struct TransactionResultModel {
    pub hash: Seq<char>,
    pub transaction_type: Seq<char>,
    pub contract_name: Option<Seq<char>>,
    pub contract_address: Option<Seq<char>>,
    pub arguments: Option<Seq<Seq<char>>>,
    pub transaction: TransactionModel,
    pub function: Option<Seq<char>>,
}

impl View for TransactionResult {
    type V = TransactionResultModel;

    open spec fn view(&self) -> TransactionResultModel {
        TransactionResultModel {
            hash: self.hash@,
            transaction_type: self.transaction_type@,
            contract_name: self.contract_name.deep_view(),
            contract_address: self.contract_address.deep_view(),
            arguments: self.arguments.deep_view(),
            transaction: self.transaction@,
            function: self.function.deep_view(),
        }
    }
}

/// The `newDeployments` entry of a run file's `returns` payload: its
/// `internal_type` tag and its value rendered back to JSON text.
#[derive(Clone, Debug, PartialEq)]
pub struct ReturnsNewDeployments {
    pub internal_type: String,
    pub value: String,
}

/// The ghost model of a `newDeployments` entry.
pub struct ReturnsModel {
    pub internal_type: Seq<char>,
    pub value: Seq<char>,
}

impl View for ReturnsNewDeployments {
    type V = ReturnsModel;

    open spec fn view(&self) -> ReturnsModel {
        ReturnsModel { internal_type: self.internal_type@, value: self.value@ }
    }
}

/// One broadcast run file: its transactions and, when present, the
/// `newDeployments` entry of its `returns` payload.
#[derive(Clone, Debug, PartialEq)]
pub struct FileContent {
    pub transactions: Vec<TransactionResult>,
    pub returns: Option<ReturnsNewDeployments>,
}

/// The ghost model of a run file.
pub struct FileContentModel {
    pub transactions: Seq<TransactionResultModel>,
    pub returns: Option<ReturnsModel>,
}

impl View for FileContent {
    type V = FileContentModel;

    open spec fn view(&self) -> FileContentModel {
        FileContentModel {
            transactions: self.transactions@.map_values(|t: TransactionResult| t@),
            returns: match self.returns {
                Some(r) => Some(r@),
                None => None,
            },
        }
    }
}

/// The views of a vector of transaction results.
pub open spec fn tr_views(q: Seq<TransactionResult>) -> Seq<TransactionResultModel> {
    q.map_values(|t: TransactionResult| t@)
}

/// The views of a vector of run files.
pub open spec fn fc_views(q: Seq<FileContent>) -> Seq<FileContentModel> {
    q.map_values(|f: FileContent| f@)
}

/// The brace-delimited groups of `s`, left to right: each runs from a `{`
/// to the next `}` at least two characters later, must not cross a newline,
/// and scanning resumes after the closing brace.  A `{` with no such `}`
/// is skipped.
pub open spec fn brace_groups(s: Seq<char>) -> Seq<Seq<char>>
    decreases s.len(),
    via brace_groups_decreases
{
    match find_c(s, '{') {
        None => seq![],
        Some(i) => {
            if i + 2 > s.len() {
                seq![]
            } else {
                match find_c(s.skip(i + 2), '}') {
                    None => brace_groups(s.skip(i + 1)),
                    Some(j0) => {
                        let j = i + 2 + j0;
                        let cap = s.subrange(i + 1, j);
                        if cap.contains('\n') {
                            brace_groups(s.skip(i + 1))
                        } else {
                            seq![cap] + brace_groups(s.skip(j + 1))
                        }
                    },
                }
            }
        },
    }
}

#[via_fn]
proof fn brace_groups_decreases(s: Seq<char>) {
    lemma_find_c_bound(s, '{');
    match find_c(s, '{') {
        Some(i) => {
            if i + 2 <= s.len() {
                lemma_find_c_bound(s.skip(i + 2), '}');
            }
        },
        None => {},
    }
}

/// The value of each `field: value` pair, in order; a piece without the
/// `": "` separator contributes nothing.
pub open spec fn field_values(parts: Seq<Seq<char>>) -> Seq<Seq<char>>
    decreases parts.len(),
{
    if parts.len() == 0 {
        seq![]
    } else {
        let rest = field_values(parts.drop_first());
        match find2(parts[0], ':', ' ') {
            None => rest,
            Some(j) => seq![parts[0].skip(j + 2)] + rest,
        }
    }
}

/// The field values of one printed record: escaped quotes `\"` and doubled
/// quotes `""` are dropped, the text splits on `", "`, and each piece
/// yields what follows its first `": "`.  `None` when fewer than seven
/// values remain.
pub open spec fn parse_record(cap: Seq<char>) -> Option<Seq<Seq<char>>> {
    let cleaned = remove2(remove2(cap, '\\', '"'), '"', '"');
    let vals = field_values(split2(cleaned, ',', ' '));
    if vals.len() < 7 {
        None
    } else {
        Some(vals)
    }
}

/// The last transaction recorded for `addr`, if any.
pub open spec fn tx_for(txs: Seq<TransactionResultModel>, addr: Seq<char>) -> Option<
    TransactionResultModel,
>
    decreases txs.len(),
{
    if txs.len() == 0 {
        None
    } else if txs.last().contract_address matches Some(a) && a == addr {
        Some(txs.last())
    } else {
        tx_for(txs.drop_last(), addr)
    }
}

/// The deployment record built from seven field values and the transaction
/// list: the artifact path splits on `:` into the path and an optional
/// contract name, and the transaction found by address supplies calldata,
/// arguments and hash — or empty ones when there is none.
pub open spec fn deployment_of(
    vals: Seq<Seq<char>>,
    txs: Seq<TransactionResultModel>,
) -> DeploymentModel {
    let artifact = vals[4];
    let apath = match find_c(artifact, ':') {
        None => artifact,
        Some(i) => artifact.take(i),
    };
    let cname = match find_c(artifact, ':') {
        None => Option::<Seq<char>>::None,
        Some(i) => {
            let rest = artifact.skip(i + 1);
            match find_c(rest, ':') {
                None => Some(rest),
                Some(k) => Some(rest.take(k)),
            }
        },
    };
    match tx_for(txs, vals[1]) {
        Some(t) => DeploymentModel {
            name: vals[0],
            address: vals[1],
            bytecode: vals[2],
            args_data: vals[3],
            tx_hash: t.hash,
            args: t.arguments,
            data: t.transaction.data,
            contract_name: cname,
            artifact_path: apath,
            deployment_context: vals[5],
            chain_id: vals[6],
        },
        None => DeploymentModel {
            name: vals[0],
            address: vals[1],
            bytecode: vals[2],
            args_data: vals[3],
            tx_hash: Seq::empty(),
            args: Some(seq![]),
            data: Seq::empty(),
            contract_name: cname,
            artifact_path: apath,
            deployment_context: vals[5],
            chain_id: vals[6],
        },
    }
}

/// Folds the groups of one run file into the map: a malformed record stops
/// everything, a `void`-context record is skipped, every other record is
/// filed under its (context, name) key.
pub open spec fn reconcile_groups(
    m: Map<(Seq<char>, Seq<char>), DeploymentModel>,
    gs: Seq<Seq<char>>,
    txs: Seq<TransactionResultModel>,
) -> Option<Map<(Seq<char>, Seq<char>), DeploymentModel>>
    decreases gs.len(),
{
    if gs.len() == 0 {
        Some(m)
    } else {
        match parse_record(gs[0]) {
            None => None,
            Some(vals) => {
                let m2 = if vals[5] == "void"@ {
                    m
                } else {
                    m.insert((vals[5], vals[0]), deployment_of(vals, txs))
                };
                reconcile_groups(m2, gs.drop_first(), txs)
            },
        }
    }
}

/// Folds one run file into the map: nothing changes unless the file has a
/// `newDeployments` entry typed `struct DeployerDeployment[]`.
pub open spec fn reconcile_file(
    m: Map<(Seq<char>, Seq<char>), DeploymentModel>,
    f: FileContentModel,
) -> Option<Map<(Seq<char>, Seq<char>), DeploymentModel>> {
    match f.returns {
        None => Some(m),
        Some(r) => {
            if r.internal_type != "struct DeployerDeployment[]"@ {
                Some(m)
            } else {
                reconcile_groups(m, brace_groups(r.value), f.transactions)
            }
        },
    }
}

/// Folds the run files into the map, in order.
pub open spec fn reconcile_files(
    m: Map<(Seq<char>, Seq<char>), DeploymentModel>,
    files: Seq<FileContentModel>,
) -> Option<Map<(Seq<char>, Seq<char>), DeploymentModel>>
    decreases files.len(),
{
    if files.len() == 0 {
        Some(m)
    } else {
        match reconcile_file(m, files[0]) {
            None => None,
            Some(m2) => reconcile_files(m2, files.drop_first()),
        }
    }
}

/// The deployment map described by a sequence of run files.
pub open spec fn reconcile_spec(files: Seq<FileContentModel>) -> Option<
    Map<(Seq<char>, Seq<char>), DeploymentModel>,
> {
    reconcile_files(Map::empty(), files)
}

fn brace_groups_exec(v: &Vec<char>) -> (r: Vec<Vec<char>>)
    ensures
        views_of(r@) == brace_groups(v@),
{
    let n = v.len();
    let mut out: Vec<Vec<char>> = Vec::new();
    let mut p: usize = 0;
    proof {
        assert(v@.skip(0) =~= v@);
        assert(views_of(out@) + brace_groups(v@) =~~= brace_groups(v@));
    }
    loop
        invariant_except_break
            n == v@.len(),
            p <= n,
            views_of(out@) + brace_groups(v@.skip(p as int)) == brace_groups(v@),
        ensures
            views_of(out@) == brace_groups(v@),
        decreases n - p,
    {
        let ghost s = v@.skip(p as int);
        let ghost prev = out@;
        match find_char_from(v, p, '{') {
            None => {
                proof {
                    assert(find_c(s, '{') is None);
                    assert(brace_groups(s) =~~= Seq::<Seq<char>>::empty());
                    assert(views_of(out@) =~~= views_of(out@) + brace_groups(s));
                }
                break ;
            },
            Some(q) => {
                proof {
                    assert(find_c(s, '{') == Some(q - p as int));
                }
                if q >= n - 1 {
                    proof {
                        assert(brace_groups(s) =~~= Seq::<Seq<char>>::empty());
                        assert(views_of(out@) =~~= views_of(out@) + brace_groups(s));
                    }
                    break ;
                }
                proof {
                    assert(s.skip((q - p as int) + 2) =~= v@.skip(q as int + 2));
                }
                match find_char_from(v, q + 2, '}') {
                    None => {
                        proof {
                            assert(find_c(s.skip((q - p as int) + 2), '}') is None);
                            assert(s.skip((q - p as int) + 1) =~= v@.skip(q as int + 1));
                            assert(brace_groups(s) == brace_groups(v@.skip(q as int + 1)));
                        }
                        p = q + 1;
                    },
                    Some(j) => {
                        let ghost i0 = q - p as int;
                        let ghost j0 = j - (q + 2) as int;
                        proof {
                            assert(find_c(s.skip(i0 + 2), '}') == Some(j0));
                            assert(s.subrange(i0 + 1, i0 + 2 + j0) =~= v@.subrange(
                                q as int + 1,
                                j as int,
                            ));
                        }
                        let cap = copy_range(v, q + 1, j);
                        let nl = find_char_from(v, q + 1, '\n');
                        let has_nl: bool = match nl {
                            Some(t) => t < j,
                            None => false,
                        };
                        proof {
                            let capv = s.subrange(i0 + 1, i0 + 2 + j0);
                            if has_nl {
                                let t = nl->0;
                                assert(capv[t - (q + 1) as int] == '\n');
                                assert(capv.contains('\n'));
                            } else {
                                if capv.contains('\n') {
                                    let w = choose|w: int|
                                        0 <= w < capv.len() && capv[w] == '\n';
                                    assert(v@[w + (q + 1)] == '\n');
                                    assert(false);
                                }
                            }
                        }
                        if has_nl {
                            proof {
                                assert(s.skip(i0 + 1) =~= v@.skip(q as int + 1));
                                assert(brace_groups(s) == brace_groups(v@.skip(q as int + 1)));
                            }
                            p = q + 1;
                        } else {
                            proof {
                                assert(s.skip(i0 + 2 + j0 + 1) =~= v@.skip(j as int + 1));
                                assert(brace_groups(s) == seq![cap@] + brace_groups(
                                    v@.skip(j as int + 1),
                                ));
                            }
                            out.push(cap);
                            proof {
                                assert(views_of(out@) =~~= views_of(prev).push(
                                    s.subrange(i0 + 1, i0 + 2 + j0),
                                ));
                                assert(views_of(out@) + brace_groups(v@.skip(j as int + 1))
                                    =~~= views_of(prev) + brace_groups(s));
                            }
                            p = j + 1;
                        }
                    },
                }
            },
        }
    }
    out
}

fn field_values_exec(parts: &Vec<Vec<char>>) -> (r: Vec<Vec<char>>)
    ensures
        views_of(r@) == field_values(views_of(parts@)),
{
    let ghost pv = views_of(parts@);
    let mut out: Vec<Vec<char>> = Vec::new();
    let mut i: usize = 0;
    proof {
        assert(pv.skip(0) =~= pv);
        assert(views_of(out@) + field_values(pv) =~~= field_values(pv));
    }
    while i < parts.len()
        invariant
            pv == views_of(parts@),
            i <= parts@.len(),
            views_of(out@) + field_values(pv.skip(i as int)) == field_values(pv),
        decreases parts@.len() - i,
    {
        let ghost s = pv.skip(i as int);
        let ghost prev = out@;
        let part = &parts[i];
        proof {
            assert(s[0] == pv[i as int]);
            assert(pv[i as int] == (#[trigger] parts@[i as int])@);
            assert(s.drop_first() =~= pv.skip(i as int + 1));
        }
        let plen = part.len();
        match crate::text::find2_from(part, 0, ':', ' ') {
            Some(t) => {
                proof {
                    assert(part@.skip(0) =~= part@);
                    assert(find2(part@, ':', ' ') == Some(t as int));
                }
                let piece = copy_range(part, t + 2, plen);
                proof {
                    assert(piece@ =~= part@.skip(t as int + 2));
                    assert(field_values(s) == seq![part@.skip(t as int + 2)] + field_values(
                        s.drop_first(),
                    ));
                }
                out.push(piece);
                proof {
                    assert(views_of(out@) =~~= views_of(prev).push(part@.skip(t as int + 2)));
                    assert(views_of(out@) + field_values(pv.skip(i as int + 1)) =~~= views_of(prev)
                        + field_values(s));
                }
            },
            None => {
                proof {
                    assert(part@.skip(0) =~= part@);
                    assert(find2(part@, ':', ' ') is None);
                    assert(field_values(s) == field_values(s.drop_first()));
                }
            },
        }
        i = i + 1;
    }
    proof {
        assert(pv.skip(pv.len() as int) =~= Seq::<Seq<char>>::empty());
        assert(field_values(Seq::<Seq<char>>::empty()) =~~= Seq::<Seq<char>>::empty());
        assert(views_of(out@) + Seq::<Seq<char>>::empty() =~~= views_of(out@));
    }
    out
}

fn parse_record_exec(g: &Vec<char>) -> (r: Option<Vec<Vec<char>>>)
    ensures
        match parse_record(g@) {
            Some(vals) => r matches Some(v) && views_of(v@) == vals,
            None => r is None,
        },
{
    let c1 = remove2_exec(g, '\\', '"');
    let cleaned = remove2_exec(&c1, '"', '"');
    let parts = split2_exec(&cleaned, ',', ' ');
    let vals = field_values_exec(&parts);
    if vals.len() < 7 {
        None
    } else {
        Some(vals)
    }
}

/// The last transaction recorded for the given address, scanning from the
/// end of the list.
fn tx_lookup<'a>(txs: &'a Vec<TransactionResult>, addr: &Vec<char>) -> (r: Option<
    &'a TransactionResult,
>)
    ensures
        match r {
            Some(t) => tx_for(tr_views(txs@), addr@) == Some(t@),
            None => tx_for(tr_views(txs@), addr@) is None,
        },
{
    let ghost tv = tr_views(txs@);
    let mut i: usize = txs.len();
    proof {
        assert(tv.take(tv.len() as int) =~= tv);
    }
    while i > 0
        invariant
            tv == tr_views(txs@),
            i <= txs@.len(),
            tx_for(tv, addr@) == tx_for(tv.take(i as int), addr@),
        decreases i,
    {
        i = i - 1;
        let t = &txs[i];
        proof {
            assert(tv[i as int] == (#[trigger] txs@[i as int])@);
            assert(tv.take(i as int + 1).last() == tv[i as int]);
            assert(tv.take(i as int + 1).drop_last() =~= tv.take(i as int));
        }
        let hit: bool = match &t.contract_address {
            Some(a) => {
                let a_chars = chars_of(a.as_str());
                eq_chars(&a_chars, addr)
            },
            None => false,
        };
        if hit {
            proof {
                assert(tx_for(tv.take(i as int + 1), addr@) == Some(tv[i as int]));
            }
            return Some(t);
        }
        proof {
            assert(tx_for(tv.take(i as int + 1), addr@) == tx_for(tv.take(i as int), addr@));
        }
    }
    proof {
        assert(tv.take(0) =~= Seq::<TransactionResultModel>::empty());
        assert(tx_for(tv.take(0), addr@) is None);
    }
    None
}

fn clone_string_vec(v: &Vec<String>) -> (r: Vec<String>)
    ensures
        r.deep_view() == v.deep_view(),
{
    let mut out: Vec<String> = Vec::new();
    let mut i: usize = 0;
    while i < v.len()
        invariant
            i <= v@.len(),
            out@.len() == i,
            forall|t: int| 0 <= t < i ==> (#[trigger] out@[t])@ == v@[t]@,
        decreases v@.len() - i,
    {
        out.push(v[i].clone());
        i = i + 1;
    }
    proof {
        assert(out.deep_view() =~~= v.deep_view());
    }
    out
}

/// Builds the deployment record for seven parsed field values.
fn build_deployment(vals: &Vec<Vec<char>>, txs: &Vec<TransactionResult>) -> (r: DeploymentObject)
    requires
        views_of(vals@).len() >= 7,
    ensures
        r@ == deployment_of(views_of(vals@), tr_views(txs@)),
{
    let ghost vv = views_of(vals@);
    proof {
        assert(forall|t: int| 0 <= t < vals@.len() ==> (#[trigger] vals@[t])@ == vv[t]);
    }
    let artifact = &vals[4];
    let alen = artifact.len();
    let mut artifact_path: String;
    let mut contract_name: Option<String>;
    match find_char_from(artifact, 0, ':') {
        None => {
            proof {
                assert(artifact@.skip(0) =~= artifact@);
                assert(find_c(artifact@, ':') is None);
            }
            artifact_path = string_of(artifact);
            contract_name = None;
        },
        Some(i) => {
            proof {
                assert(artifact@.skip(0) =~= artifact@);
                assert(find_c(artifact@, ':') == Some(i as int));
                assert(artifact@.take(i as int) =~= artifact@.subrange(0, i as int));
            }
            let path_chars = copy_range(artifact, 0, i);
            artifact_path = string_of(&path_chars);
            let ghost rest = artifact@.skip(i as int + 1);
            match find_char_from(artifact, i + 1, ':') {
                None => {
                    proof {
                        assert(find_c(rest, ':') is None);
                        assert(rest =~= artifact@.subrange(i as int + 1, artifact@.len() as int));
                    }
                    let cn_chars = copy_range(artifact, i + 1, alen);
                    contract_name = Some(string_of(&cn_chars));
                },
                Some(k) => {
                    proof {
                        assert(find_c(rest, ':') == Some(k - (i + 1) as int));
                        assert(rest.take(k - (i + 1) as int) =~= artifact@.subrange(
                            i as int + 1,
                            k as int,
                        ));
                    }
                    let cn_chars = copy_range(artifact, i + 1, k);
                    contract_name = Some(string_of(&cn_chars));
                },
            }
        },
    }
    let name = string_of(&vals[0]);
    let address_chars = &vals[1];
    let address = string_of(address_chars);
    let bytecode = string_of(&vals[2]);
    let args_data = string_of(&vals[3]);
    let deployment_context = string_of(&vals[5]);
    let chain_id = string_of(&vals[6]);
    match tx_lookup(txs, address_chars) {
        Some(t) => {
            let args: Option<Vec<String>> = match &t.arguments {
                Some(a) => Some(clone_string_vec(a)),
                None => None,
            };
            let r = DeploymentObject {
                name,
                address,
                bytecode,
                args_data,
                tx_hash: t.hash.clone(),
                args,
                data: t.transaction.data.clone(),
                contract_name,
                artifact_path,
                deployment_context,
                chain_id,
            };
            proof {
                assert(r@.args == tx_for(tr_views(txs@), vv[1]).unwrap().arguments);
            }
            r
        },
        None => {
            let empty_args: Vec<String> = Vec::new();
            let r = DeploymentObject {
                name,
                address,
                bytecode,
                args_data,
                tx_hash: String::new(),
                args: Some(empty_args),
                data: String::new(),
                contract_name,
                artifact_path,
                deployment_context,
                chain_id,
            };
            proof {
                assert(r@.args matches Some(e) && e =~= Seq::<Seq<char>>::empty());
                assert(deployment_of(vv, tr_views(txs@)).args matches Some(e) && e
                    =~= Seq::<Seq<char>>::empty());
                assert(r@.tx_hash =~= Seq::<char>::empty());
                assert(r@.data =~= Seq::<char>::empty());
            }
            r
        },
    }
}

/// Folds one run file's groups into the map.
fn apply_groups(
    dm: &mut DeploymentMap,
    groups: &Vec<Vec<char>>,
    txs: &Vec<TransactionResult>,
) -> (r: Result<(), ParseError>)
    requires
        old(dm).wf(),
    ensures
        match reconcile_groups(old(dm)@, views_of(groups@), tr_views(txs@)) {
            Some(m) => r is Ok && final(dm).wf() && final(dm)@ == m,
            None => r matches Err(e) && e == ParseError::DeploymentRecordSyntax,
        },
{
    let ghost m0 = dm@;
    let ghost gv = views_of(groups@);
    let ghost txv = tr_views(txs@);
    let void_pat = chars_of("void");
    let mut j: usize = 0;
    proof {
        assert(gv.skip(0) =~= gv);
    }
    while j < groups.len()
        invariant
            gv == views_of(groups@),
            txv == tr_views(txs@),
            m0 == old(dm)@,
            void_pat@ == "void"@,
            j <= groups@.len(),
            dm.wf(),
            reconcile_groups(dm@, gv.skip(j as int), txv) == reconcile_groups(m0, gv, txv),
        decreases groups@.len() - j,
    {
        let ghost s = gv.skip(j as int);
        proof {
            assert(s[0] == gv[j as int]);
            assert(gv[j as int] == (#[trigger] groups@[j as int])@);
            assert(s.drop_first() =~= gv.skip(j as int + 1));
        }
        match parse_record_exec(&groups[j]) {
            None => {
                proof {
                    assert(parse_record(s[0]) is None);
                    assert(reconcile_groups(dm@, s, txv) is None);
                }
                return Err(ParseError::DeploymentRecordSyntax);
            },
            Some(vals) => {
                let ghost vv = views_of(vals@);
                proof {
                    assert(parse_record(s[0]) == Some(vv));
                    assert(vals@[5]@ == vv[5] && vals@[0]@ == vv[0]);
                }
                if eq_chars(&vals[5], &void_pat) {
                    proof {
                        assert(vv[5] == "void"@);
                        assert(reconcile_groups(dm@, s, txv) == reconcile_groups(
                            dm@,
                            s.drop_first(),
                            txv,
                        ));
                    }
                } else {
                    let d = build_deployment(&vals, txs);
                    let ghost dm_before = dm@;
                    dm.insert(d);
                    proof {
                        assert(d@.deployment_context == vv[5] && d@.name == vv[0]);
                        assert(dm@ == dm_before.insert((vv[5], vv[0]), deployment_of(vv, txv)));
                        assert(reconcile_groups(dm_before, s, txv) == reconcile_groups(
                            dm@,
                            s.drop_first(),
                            txv,
                        ));
                    }
                }
                j = j + 1;
            },
        }
    }
    proof {
        assert(gv.skip(gv.len() as int) =~= Seq::<Seq<char>>::empty());
        assert(reconcile_groups(dm@, gv.skip(gv.len() as int), txv) == Some(dm@));
    }
    Ok(())
}

/// Reconciles the run files into one deployment map: every record outside
/// the `void` context, keyed by (context, name), joined by address against
/// its file's transactions, later files and later records overriding
/// earlier ones.  Fails exactly when a printed record holds fewer than
/// seven field values.
pub fn get_last_deployments(files: &Vec<FileContent>) -> (r: Result<DeploymentMap, ParseError>)
    ensures
        match reconcile_spec(fc_views(files@)) {
            Some(m) => r matches Ok(d) && d.wf() && d@ == m,
            None => r matches Err(e) && e == ParseError::DeploymentRecordSyntax,
        },
{
    let ghost fv = fc_views(files@);
    let mut dm = DeploymentMap::new();
    let mut i: usize = 0;
    let expected_pat = chars_of("struct DeployerDeployment[]");
    proof {
        assert(fv.skip(0) =~= fv);
        assert(dm@ =~~= Map::<(Seq<char>, Seq<char>), DeploymentModel>::empty());
    }
    while i < files.len()
        invariant
            fv == fc_views(files@),
            expected_pat@ == "struct DeployerDeployment[]"@,
            i <= files@.len(),
            dm.wf(),
            reconcile_files(dm@, fv.skip(i as int)) == reconcile_spec(fv),
        decreases files@.len() - i,
    {
        let ghost s = fv.skip(i as int);
        let f = &files[i];
        proof {
            assert(s[0] == fv[i as int]);
            assert(fv[i as int] == (#[trigger] files@[i as int])@);
            assert(s.drop_first() =~= fv.skip(i as int + 1));
        }
        match &f.returns {
            None => {
                proof {
                    assert(reconcile_file(dm@, s[0]) == Some(dm@));
                    assert(reconcile_files(dm@, s) == reconcile_files(dm@, s.drop_first()));
                }
            },
            Some(ret) => {
                let it_chars = chars_of(ret.internal_type.as_str());
                if !eq_chars(&it_chars, &expected_pat) {
                    proof {
                        assert(s[0].returns matches Some(rm) && rm.internal_type
                            != "struct DeployerDeployment[]"@);
                        assert(reconcile_file(dm@, s[0]) == Some(dm@));
                        assert(reconcile_files(dm@, s) == reconcile_files(dm@, s.drop_first()));
                    }
                } else {
                    let value_chars = chars_of(ret.value.as_str());
                    let groups = brace_groups_exec(&value_chars);
                    let ghost dm_before = dm@;
                    match apply_groups(&mut dm, &groups, &f.transactions) {
                        Ok(_) => {
                            proof {
                                assert(s[0].returns matches Some(rm) && rm.value == value_chars@
                                    && rm.internal_type == "struct DeployerDeployment[]"@);
                                assert(s[0].transactions == tr_views(f.transactions@));
                                assert(reconcile_file(dm_before, s[0]) == Some(dm@));
                                assert(reconcile_files(dm_before, s) == reconcile_files(
                                    dm@,
                                    s.drop_first(),
                                ));
                            }
                        },
                        Err(e) => {
                            proof {
                                assert(reconcile_file(dm_before, s[0]) is None);
                                assert(reconcile_files(dm_before, s) is None);
                            }
                            return Err(e);
                        },
                    }
                }
            },
        }
        i = i + 1;
    }
    proof {
        assert(fv.skip(fv.len() as int) =~= Seq::<FileContentModel>::empty());
        assert(reconcile_files(dm@, fv.skip(fv.len() as int)) == Some(dm@));
    }
    Ok(dm)
}

/// The reconciled map is a function of the run files alone: identical
/// inputs give identical maps, so re-running a sync over the same
/// broadcast files reproduces the same result.
pub proof fn lemma_reconcile_deterministic(a: Seq<FileContentModel>, b: Seq<FileContentModel>)
    requires
        a == b,
    ensures
        reconcile_spec(a) == reconcile_spec(b),
{
}

/// What every entry of the reconciled map satisfies: it is filed under its
/// own (context, name) key, and its context is never the reserved `void`
/// context — a printed record in that context never reaches the map.
pub open spec fn entry_invariant(m: Map<(Seq<char>, Seq<char>), DeploymentModel>) -> bool {
    forall|k: (Seq<char>, Seq<char>)|
        m.contains_key(k) ==> dep_key(#[trigger] m[k]) == k && m[k].deployment_context != "void"@
}

proof fn lemma_groups_preserve(
    m: Map<(Seq<char>, Seq<char>), DeploymentModel>,
    gs: Seq<Seq<char>>,
    txs: Seq<TransactionResultModel>,
)
    requires
        entry_invariant(m),
    ensures
        reconcile_groups(m, gs, txs) matches Some(m2) ==> entry_invariant(m2),
    decreases gs.len(),
{
    if gs.len() > 0 {
        match parse_record(gs[0]) {
            None => {},
            Some(vals) => {
                if vals[5] == "void"@ {
                    lemma_groups_preserve(m, gs.drop_first(), txs);
                } else {
                    let d = deployment_of(vals, txs);
                    let m2 = m.insert((vals[5], vals[0]), d);
                    assert(entry_invariant(m2)) by {
                        assert(dep_key(d) == (vals[5], vals[0]));
                        assert forall|k: (Seq<char>, Seq<char>)| m2.contains_key(k) implies dep_key(
                            #[trigger] m2[k],
                        ) == k && m2[k].deployment_context != "void"@ by {
                            if k != (vals[5], vals[0]) {
                                assert(m2[k] == m[k]);
                            }
                        }
                    }
                    lemma_groups_preserve(m2, gs.drop_first(), txs);
                }
            },
        }
    }
}

proof fn lemma_files_preserve(
    m: Map<(Seq<char>, Seq<char>), DeploymentModel>,
    files: Seq<FileContentModel>,
)
    requires
        entry_invariant(m),
    ensures
        reconcile_files(m, files) matches Some(m2) ==> entry_invariant(m2),
    decreases files.len(),
{
    if files.len() > 0 {
        match reconcile_file(m, files[0]) {
            None => {},
            Some(m2) => {
                assert(entry_invariant(m2)) by {
                    match files[0].returns {
                        None => {},
                        Some(r) => {
                            if r.internal_type == "struct DeployerDeployment[]"@ {
                                lemma_groups_preserve(
                                    m,
                                    brace_groups(r.value),
                                    files[0].transactions,
                                );
                            }
                        },
                    }
                }
                lemma_files_preserve(m2, files.drop_first());
            },
        }
    }
}

/// No deployment in the reserved `void` context is ever tracked: whenever
/// reconciliation succeeds, every entry of the resulting map lies under its
/// own (context, name) key and its context is not `void`.
pub proof fn lemma_void_never_kept(files: Seq<FileContentModel>)
    ensures
        reconcile_spec(files) matches Some(m) ==> entry_invariant(m),
{
    let e = Map::<(Seq<char>, Seq<char>), DeploymentModel>::empty();
    assert(entry_invariant(e));
    lemma_files_preserve(e, files);
}

} // verus!
