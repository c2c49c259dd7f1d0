use vstd::prelude::*;
use crate::apis::{HtmlContent, JsonResponse};
use crate::json_text::{json_array_string, json_array_text, json_object_string, json_object_text};
use crate::str_map::StrMap;
use crate::text::{decimal_string, decimal_text, debug_quoted, debug_string, texts};

verus! {

/// Text data of mempool transactions, by id: for each, a list of fields whose
/// first is the virtual size and second the weight.
pub struct MempoolData {
    pub entries: StrMap<Vec<String>>,
}

impl MempoolData {
    /// No transaction yet.
    pub fn new() -> (r: MempoolData)
        ensures
            r.entries@ == Map::<Seq<char>, Vec<String>>::empty(),
    {
        MempoolData { entries: StrMap::new() }
    }

    /// The fields of `txid`, if it is known.
    pub fn get_entry(&self, txid: &str) -> (r: Option<&Vec<String>>)
        ensures
            match r {
                Some(v) => self.entries@.contains_key(txid@) && *v == self.entries@[txid@],
                None => !self.entries@.contains_key(txid@),
            },
    {
        self.entries.get(txid)
    }
}

/// Mempool transactions in three generations: each parent with its children,
/// and each child with its own children (the grandchildren).
pub struct SeparatedTxGraph {
    pub parent_child_edges: StrMap<Vec<String>>,
    pub child_grandchild_edges: StrMap<Vec<String>>,
}

/// The transactions that entered the mempool lately.
pub struct MempoolNews {
    pub txs: Vec<String>,
}

/// The hash of the last block.
pub struct LastBlock {
    pub block: String,
}

/// The style sheet of the transaction pages.
pub const TX_STYLE: &'static str = "<style> .tx-padre { color: black; } .tx-hijo { color: green; } .tx-nieto { color: blue; } </style>";

/// The page that loads the drawing scripts.
pub const MEMPOOL_TXS_HTML: &'static str = "<!DOCTYPE html>\n         <html>\n             \n             <head>\n                 <script src='/static/p5.min.js'></script>\n                 <script src='script_js'></script>\n             </head>\n             <body>\n                <script src='/sketch_js'></script>\n             </body>\n             \n         </html>";

/// The page that loads the drawing scripts (see `get_mempool_json`).
pub fn get_mempool_txs() -> (page: HtmlContent)
    ensures
        page.0@ == MEMPOOL_TXS_HTML@,
{
    HtmlContent(String::from_str(MEMPOOL_TXS_HTML))
}

/// The index page, up to the data it carries.
pub const INDEX_HTML_HEAD: &'static str = "<!DOCTYPE html>\n         <html>\n             \n             <head>\n                 <script src='/static/p5.min.js'></script>\n                 <script src='script_js'></script>\n             </head>\n             <body>\n                <script>let datosDescendientes = ";

/// The index page, after the data it carries.
pub const INDEX_HTML_TAIL: &'static str = ";</script>\n                <script src='/sketch_js'></script>\n                <div id='apiResult'>Cargando...</div>\n             </body>\n             \n         </html>";

/// The sample descendants that the index page carries.
pub open spec fn sample_descendants() -> Seq<Seq<char>> {
    seq!["1"@, "2"@, "3"@]
}

/// The index page: it loads the drawing scripts with a sample list of
/// descendants, `{"descendientes":["1","2","3"]}`, in the variable
/// `datosDescendientes`.
pub fn get_index() -> (page: HtmlContent)
    ensures
        page.0@ == INDEX_HTML_HEAD@ + json_object_text("descendientes"@, sample_descendants())
            + INDEX_HTML_TAIL@,
{
    let mut stringified_json: Vec<String> = Vec::new();
    stringified_json.push(String::from_str("1"));
    stringified_json.push(String::from_str("2"));
    stringified_json.push(String::from_str("3"));
    assert(texts(stringified_json@) =~= sample_descendants());
    let json = json_object_string("descendientes", &stringified_json);
    index_page(json.as_str())
}

/// The index page around the JSON text of its data.
pub fn index_page(descendientes_json: &str) -> (page: HtmlContent)
    ensures
        page.0@ == INDEX_HTML_HEAD@ + descendientes_json@ + INDEX_HTML_TAIL@,
{
    let mut html_output = String::from_str(INDEX_HTML_HEAD);
    html_output.append(descendientes_json);
    html_output.append(INDEX_HTML_TAIL);
    HtmlContent(html_output)
}

/// One `<p>` line per transaction of `pairs`: its id and its first field.
pub open spec fn tx_data_lines(pairs: Seq<(Seq<char>, Vec<String>)>) -> Seq<char>
    decreases pairs.len(),
{
    if pairs.len() == 0 {
        Seq::empty()
    } else {
        tx_data_lines(pairs.drop_last()) + "<p>"@ + pairs.last().0 + " - "@ + pairs.last().1@[0]@
            + "</p>"@
    }
}

/// Law of the mempool data page: the line at position `i` shows the id at
/// position `i` and its field 0.
pub proof fn lemma_tx_data_lines_each(pairs: Seq<(Seq<char>, Vec<String>)>)
    ensures
        tx_data_lines(pairs.take(0)) == Seq::<char>::empty(),
        forall|i: int|
            0 <= i < pairs.len() ==> #[trigger] tx_data_lines(pairs.take(i + 1)) == tx_data_lines(
                pairs.take(i),
            ) + "<p>"@ + pairs[i].0 + " - "@ + pairs[i].1@[0]@ + "</p>"@,
{
    assert(pairs.take(0).len() == 0);
    assert forall|i: int| 0 <= i < pairs.len() implies #[trigger] tx_data_lines(pairs.take(i + 1))
        == tx_data_lines(pairs.take(i)) + "<p>"@ + pairs[i].0 + " - "@ + pairs[i].1@[0]@ + "</p>"@ by {
        let t = pairs.take(i + 1);
        assert(t.drop_last() =~= pairs.take(i));
        assert(t.last() == pairs[i]);
    }
}

/// Every transaction of `data` has at least `n` fields.
pub open spec fn all_have_fields(data: Map<Seq<char>, Vec<String>>, n: nat) -> bool {
    forall|k: Seq<char>| #[trigger] data.contains_key(k) ==> data[k]@.len() >= n
}

/// The page of the mempool data: a title, one line per transaction (in the
/// order of the data) with its id and first field, and the style sheet.
pub fn get_tx_mempool_data(mempool_data: &MempoolData) -> (page: HtmlContent)
    requires
        all_have_fields(mempool_data.entries@, 1),
    ensures
        page.0@ == "<html><body>"@ + "<h1>Datos de las Txs de la Mempool</h1>"@ + tx_data_lines(
            mempool_data.entries.pairs(),
        ) + TX_STYLE@ + "</body></html>"@,
{
    let ghost pairs = mempool_data.entries.pairs();
    let mut transactions = String::new();
    transactions.append("<h1>Datos de las Txs de la Mempool</h1>");
    let keys = mempool_data.entries.keys();
    let mut i: usize = 0;
    while i < keys.len()
        invariant
            0 <= i <= keys.len(),
            keys@ == mempool_data.entries.key_list(),
            pairs == mempool_data.entries.pairs(),
            all_have_fields(mempool_data.entries@, 1),
            forall|k: Seq<char>| #[trigger]
                mempool_data.entries@.contains_key(k) <==> mempool_data.entries.key_seq().contains(k),
            transactions@ == "<h1>Datos de las Txs de la Mempool</h1>"@ + tx_data_lines(
                pairs.take(i as int),
            ),
        decreases keys.len() - i,
    {
        let txid = &keys[i];
        assert(mempool_data.entries.key_seq()[i as int] == txid@);
        let datos = mempool_data.entries.get(txid.as_str()).unwrap();
        let ghost before = transactions@;
        transactions.append("<p>");
        transactions.append(txid.as_str());
        transactions.append(" - ");
        transactions.append(datos[0].as_str());
        transactions.append("</p>");
        proof {
            assert(pairs.take(i + 1).drop_last() =~= pairs.take(i as int));
            assert(pairs.take(i + 1).last() == (txid@, *datos));
            assert(transactions@ =~= "<h1>Datos de las Txs de la Mempool</h1>"@ + tx_data_lines(
                pairs.take(i + 1),
            ));
        }
        i = i + 1;
    }
    assert(pairs.take(keys.len() as int) =~= pairs);
    transactions.append(TX_STYLE);
    let mut html_output = String::from_str("<html><body>");
    html_output.append(transactions.as_str());
    html_output.append("</body></html>");
    assert(html_output@ =~= "<html><body>"@ + "<h1>Datos de las Txs de la Mempool</h1>"@ + tx_data_lines(
        pairs,
    ) + TX_STYLE@ + "</body></html>"@);
    HtmlContent(html_output)
}

/// The ids that `get_mempool_datos` sends for a kind of request (`tipo`):
/// 1, the parents of the graph; 2, the new transactions; 3, the first new
/// transaction; 4, the last block; anything else, none.
pub open spec fn datos_selection(
    tipo: u16,
    parents: Seq<Seq<char>>,
    news: Seq<Seq<char>>,
    last_block: Seq<char>,
) -> Seq<Seq<char>> {
    if tipo == 1 {
        parents
    } else if tipo == 2 {
        news
    } else if tipo == 3 {
        seq![news[0]]
    } else if tipo == 4 {
        seq![last_block]
    } else {
        Seq::empty()
    }
}

/// Law of the ids sent for a request: the parents of the graph for kind 1
/// and for no other kind, the new transactions for kind 2, the first of them
/// for kind 3, the last block for kind 4, and nothing for any other kind
/// (the kind 0 of a new visitor among them).
pub proof fn lemma_datos_by_kind(
    tipo: u16,
    parents: Seq<Seq<char>>,
    news: Seq<Seq<char>>,
    last_block: Seq<char>,
)
    ensures
        tipo == 1 ==> datos_selection(tipo, parents, news, last_block) == parents,
        tipo == 2 ==> datos_selection(tipo, parents, news, last_block) == news,
        tipo == 3 ==> datos_selection(tipo, parents, news, last_block) == seq![news[0]],
        tipo == 4 ==> datos_selection(tipo, parents, news, last_block) == seq![last_block],
        (tipo < 1 || tipo > 4) ==> datos_selection(tipo, parents, news, last_block).len() == 0,
{
}

/// Picks the ids that a request of kind `tipo` asks for; see
/// `datos_selection`.
pub fn select_mempool_datos(
    separated_graph: &SeparatedTxGraph,
    mempool_news: &MempoolNews,
    last_block: &LastBlock,
    tipo: u16,
) -> (txs: Vec<String>)
    requires
        tipo == 3 ==> mempool_news.txs@.len() > 0,
    ensures
        texts(txs@) == datos_selection(
            tipo,
            separated_graph.parent_child_edges.key_seq(),
            texts(mempool_news.txs@),
            last_block.block@,
        ),
{
    let mut txs: Vec<String> = Vec::new();
    if tipo == 1 {
        let parents = separated_graph.parent_child_edges.keys();
        txs = parents.clone();
        assert(texts(txs@) =~= separated_graph.parent_child_edges.key_seq());
    } else if tipo == 2 {
        txs = mempool_news.txs.clone();
        assert(texts(txs@) =~= texts(mempool_news.txs@));
    } else if tipo == 3 {
        txs.push(mempool_news.txs[0].clone());
        assert(texts(txs@) =~= seq![mempool_news.txs@[0]@]);
    } else if tipo == 4 {
        txs.push(last_block.block.clone());
        assert(texts(txs@) =~= seq![last_block.block@]);
    } else {
        assert(texts(txs@) =~= Seq::<Seq<char>>::empty());
    }
    txs
}

/// The ids that a request of kind `tipo` asks for, as a JSON array; see
/// `datos_selection`.
pub fn get_mempool_datos(
    separated_graph: &SeparatedTxGraph,
    mempool_news: &MempoolNews,
    last_block: &LastBlock,
    tipo: u16,
) -> (json_txs: String)
    requires
        tipo == 3 ==> mempool_news.txs@.len() > 0,
    ensures
        json_txs@ == json_array_text(
            datos_selection(
                tipo,
                separated_graph.parent_child_edges.key_seq(),
                texts(mempool_news.txs@),
                last_block.block@,
            ),
        ),
{
    let txs = select_mempool_datos(separated_graph, mempool_news, last_block, tipo);
    json_array_string(&txs)
}

/// More than this many seconds since the last request, and the page gets
/// every transaction again.
pub const REFRESH_SECS: u64 = 20;

/// The cookies that the mempool page sets on a request: the kind of update the
/// page is to ask for (`tipo_tx`) and the time of this request (`now_time`).
pub struct MempoolCookies {
    pub tipo_tx: String,
    pub now_time: String,
}

/// Decides the cookies of a request to the mempool page made at `now_secs`
/// (seconds since the Unix epoch). A visitor without a token gets `tipo_tx`
/// "0" and `now_time` "0" (and a new token). A visitor with one, whose last
/// request was at `last_secs`, gets "1" (send everything) when more than
/// `REFRESH_SECS` seconds passed, "2" (send what is new) otherwise, and the
/// current time.
pub fn mempool_json_cookies(has_user_token: bool, now_secs: u64, last_secs: u64) -> (c:
    MempoolCookies)
    requires
        has_user_token ==> last_secs <= now_secs,
    ensures
        !has_user_token ==> c.tipo_tx@ == "0"@ && c.now_time@ == "0"@,
        has_user_token ==> c.now_time@ == decimal_text(now_secs as nat),
        has_user_token && now_secs - last_secs > REFRESH_SECS ==> c.tipo_tx@ == "1"@,
        has_user_token && now_secs - last_secs <= REFRESH_SECS ==> c.tipo_tx@ == "2"@,
{
    if has_user_token {
        let elapstime = now_secs - last_secs;
        let tipo_tx = if elapstime > REFRESH_SECS {
            String::from_str("1")
        } else {
            String::from_str("2")
        };
        MempoolCookies { tipo_tx, now_time: decimal_string(now_secs) }
    } else {
        MempoolCookies { tipo_tx: String::from_str("0"), now_time: String::from_str("0") }
    }
}

/// What stands for a size that is not known.
pub const DEFAULT_VALUE: &'static str = "Default Value";

/// A transaction whose fields are looked up has at least two of them
/// (virtual size and weight), unless it is not in the data at all.
pub open spec fn sizes_known(data: Map<Seq<char>, Vec<String>>, id: Seq<char>) -> bool {
    data.contains_key(id) ==> data[id]@.len() >= 2
}

/// The virtual size and the weight of a transaction: its first two fields,
/// or `DEFAULT_VALUE` for both when it is not in the data.
pub open spec fn tx_sizes(data: Map<Seq<char>, Vec<String>>, id: Seq<char>) -> (Seq<char>, Seq<char>) {
    if data.contains_key(id) {
        (data[id]@[0]@, data[id]@[1]@)
    } else {
        (DEFAULT_VALUE@, DEFAULT_VALUE@)
    }
}

fn tx_sizes_of(mempool_data: &MempoolData, id: &str) -> (r: (String, String))
    requires
        sizes_known(mempool_data.entries@, id@),
    ensures
        (r.0@, r.1@) == tx_sizes(mempool_data.entries@, id@),
{
    match mempool_data.get_entry(id) {
        Some(vec) => (vec[0].clone(), vec[1].clone()),
        None => (String::from_str(DEFAULT_VALUE), String::from_str(DEFAULT_VALUE)),
    }
}

/// How the line of a parent opens.
pub const PARENT_START: &'static str = "<p class='tx-padre'> ";

/// What follows the number of a parent's line.
pub const PARENT_LABEL: &'static str = ":Tx padre: ";

/// What comes between a parent's id and its sizes.
pub const PARENT_GAP: &'static str = "  ( vsize: ";

/// How the line of a child opens.
pub const CHILD_START: &'static str = "<p class='tx-hijo'>&nbsp;&nbsp; ";

/// What follows the number of a child's line.
pub const CHILD_LABEL: &'static str = ":Tx hijo: ";

/// What comes between a child's or grandchild's id and its sizes.
pub const CHILD_GAP: &'static str = " ( vsize: ";

/// How the line of a grandchild opens.
pub const GRANDCHILD_START: &'static str = "<p class='tx-nieto'>&nbsp;&nbsp;&nbsp;&nbsp; ";

/// What follows the number of a grandchild's line.
pub const GRANDCHILD_LABEL: &'static str = ":Tx nieto: ";

/// The line of a parent transaction on the descendants page.
pub open spec fn parent_line(n: nat, id: Seq<char>, sizes: (Seq<char>, Seq<char>)) -> Seq<char> {
    tx_line_text(PARENT_START@, n, PARENT_LABEL@, debug_quoted(id), PARENT_GAP@, sizes)
}

/// The line of a child transaction on the descendants page.
pub open spec fn child_line(n: nat, id: Seq<char>, sizes: (Seq<char>, Seq<char>)) -> Seq<char> {
    tx_line_text(CHILD_START@, n, CHILD_LABEL@, debug_quoted(id), CHILD_GAP@, sizes)
}

/// The line of a grandchild transaction on the descendants page.
pub open spec fn grandchild_line(n: nat, id: Seq<char>, sizes: (Seq<char>, Seq<char>)) -> Seq<char> {
    tx_line_text(GRANDCHILD_START@, n, GRANDCHILD_LABEL@, debug_quoted(id), CHILD_GAP@, sizes)
}

/// The lines of a list of grandchildren, numbered from 1.
pub open spec fn grandchild_lines(gs: Seq<Seq<char>>, data: Map<Seq<char>, Vec<String>>) -> Seq<char>
    decreases gs.len(),
{
    if gs.len() == 0 {
        Seq::empty()
    } else {
        grandchild_lines(gs.drop_last(), data) + grandchild_line(
            gs.len(),
            gs.last(),
            tx_sizes(data, gs.last()),
        )
    }
}

/// The grandchildren listed under a child, as ids; none if the child has no
/// entry among the grandchild edges.
pub open spec fn grandchildren_of(grand: Map<Seq<char>, Vec<String>>, child: Seq<char>) -> Seq<Seq<char>> {
    if grand.contains_key(child) {
        texts(grand[child]@)
    } else {
        Seq::empty()
    }
}

/// The lines of a list of children, numbered from 1, each followed by the
/// lines of its grandchildren.
pub open spec fn children_lines(
    cs: Seq<Seq<char>>,
    grand: Map<Seq<char>, Vec<String>>,
    data: Map<Seq<char>, Vec<String>>,
) -> Seq<char>
    decreases cs.len(),
{
    if cs.len() == 0 {
        Seq::empty()
    } else {
        children_lines(cs.drop_last(), grand, data) + child_line(
            cs.len(),
            cs.last(),
            tx_sizes(data, cs.last()),
        ) + grandchild_lines(grandchildren_of(grand, cs.last()), data)
    }
}

/// The lines of a list of parents, numbered from 1, each followed by the
/// lines of its children.
pub open spec fn parent_lines(
    ps: Seq<(Seq<char>, Vec<String>)>,
    grand: Map<Seq<char>, Vec<String>>,
    data: Map<Seq<char>, Vec<String>>,
) -> Seq<char>
    decreases ps.len(),
{
    if ps.len() == 0 {
        Seq::empty()
    } else {
        parent_lines(ps.drop_last(), grand, data) + parent_line(
            ps.len(),
            ps.last().0,
            tx_sizes(data, ps.last().0),
        ) + children_lines(texts(ps.last().1@), grand, data)
    }
}

/// The number of lines of a list of children with their grandchildren.
pub open spec fn children_count(cs: Seq<Seq<char>>, grand: Map<Seq<char>, Vec<String>>) -> nat
    decreases cs.len(),
{
    if cs.len() == 0 {
        0
    } else {
        children_count(cs.drop_last(), grand) + 1 + grandchildren_of(grand, cs.last()).len()
    }
}

/// The number of lines of a list of parents with their descendants.
pub open spec fn parent_count(
    ps: Seq<(Seq<char>, Vec<String>)>,
    grand: Map<Seq<char>, Vec<String>>,
) -> nat
    decreases ps.len(),
{
    if ps.len() == 0 {
        0
    } else {
        parent_count(ps.drop_last(), grand) + 1 + children_count(texts(ps.last().1@), grand)
    }
}

/// Every transaction whose sizes the descendants pages look up has them.
pub open spec fn descen_sizes_known(
    ps: Seq<(Seq<char>, Vec<String>)>,
    grand: Map<Seq<char>, Vec<String>>,
    data: Map<Seq<char>, Vec<String>>,
) -> bool {
    forall|i: int|
        0 <= i < ps.len() ==> {
            &&& sizes_known(data, (#[trigger] ps[i]).0)
            &&& forall|j: int|
                0 <= j < ps[i].1@.len() ==> {
                    &&& sizes_known(data, (#[trigger] ps[i].1@[j])@)
                    &&& forall|k: int|
                        0 <= k < grandchildren_of(grand, ps[i].1@[j]@).len() ==> sizes_known(
                            data,
                            #[trigger] grandchildren_of(grand, ps[i].1@[j]@)[k],
                        )
                }
        }
}

/// The head of the descendants page, before its parent lines.
pub open spec fn descen_head(n_parents: nat) -> Seq<char> {
    "<h1>Txs de la Mempool</h1>"@ + "<h3> Total transacciones padre: "@ + decimal_text(n_parents)
        + " </h3>"@ + TX_STYLE@
}

/// The last line of the descendants page.
pub open spec fn descen_foot(n_lines: nat) -> Seq<char> {
    "\n<p > Total líneas listado  "@ + decimal_text(n_lines) + " : </p>"@
}

/// One line of the descendants page: its opening (`start`), its number, a
/// label, the quoted id, the text before the sizes (`gap`), and the sizes.
pub open spec fn tx_line_text(
    start: Seq<char>,
    n: nat,
    label: Seq<char>,
    quoted_id: Seq<char>,
    gap: Seq<char>,
    sizes: (Seq<char>, Seq<char>),
) -> Seq<char> {
    start + decimal_text(n) + label + quoted_id + gap + sizes.0 + " - weight: "@ + sizes.1 + " )</p>"@
}

/// Appends one line of the descendants page; see `tx_line_text`. The id comes
/// already quoted.
pub fn push_tx_line(
    s: &mut String,
    start: &str,
    n: u64,
    label: &str,
    quoted_id: &str,
    gap: &str,
    sizes: &(String, String),
)
    ensures
        final(s)@ == old(s)@ + tx_line_text(start@, n as nat, label@, quoted_id@, gap@, (sizes.0@, sizes.1@)),
{
    let ghost before = s@;
    let number = decimal_string(n);
    s.append(start);
    s.append(number.as_str());
    s.append(label);
    s.append(quoted_id);
    s.append(gap);
    s.append(sizes.0.as_str());
    s.append(" - weight: ");
    s.append(sizes.1.as_str());
    s.append(" )</p>");
    assert(s@ =~= before + tx_line_text(start@, n as nat, label@, quoted_id@, gap@, (sizes.0@, sizes.1@)));
}

fn append_grandchild_lines(transactions: &mut String, grandchildrens: &Vec<String>, mempool_data: &MempoolData)
    requires
        forall|k: int|
            0 <= k < grandchildrens@.len() ==> sizes_known(mempool_data.entries@, #[trigger] texts(grandchildrens@)[k]),
    ensures
        final(transactions)@ == old(transactions)@ + grandchild_lines(texts(grandchildrens@), mempool_data.entries@),
{
    let ghost gs = texts(grandchildrens@);
    let ghost data = mempool_data.entries@;
    let ghost start = transactions@;
    let mut k: usize = 0;
    while k < grandchildrens.len()
        invariant
            0 <= k <= grandchildrens.len(),
            gs == texts(grandchildrens@),
            data == mempool_data.entries@,
            forall|k: int| 0 <= k < gs.len() ==> sizes_known(data, #[trigger] gs[k]),
            transactions@ == start + grandchild_lines(gs.take(k as int), data),
        decreases grandchildrens.len() - k,
    {
        let grandchildren = &grandchildrens[k];
        assert(gs[k as int] == grandchildren@);
        proof {
            assert(gs.take(k + 1).drop_last() =~= gs.take(k as int));
            assert(gs.take(k + 1).last() == grandchildren@);
        }
        let sizes = tx_sizes_of(mempool_data, grandchildren.as_str());
        let conta_nieto = (k + 1) as u64;
        let quoted = debug_string(grandchildren.as_str());
        push_tx_line(
            transactions,
            GRANDCHILD_START,
            conta_nieto,
            GRANDCHILD_LABEL,
            quoted.as_str(),
            CHILD_GAP,
            &sizes,
        );
        assert(transactions@ =~= start + grandchild_lines(gs.take(k + 1), data));
        k = k + 1;
    }
    assert(gs.take(grandchildrens.len() as int) =~= gs);
}

proof fn lemma_children_count_prefix(cs: Seq<Seq<char>>, grand: Map<Seq<char>, Vec<String>>, j: int)
    requires
        0 <= j <= cs.len(),
    ensures
        children_count(cs.take(j), grand) <= children_count(cs, grand),
    decreases cs.len() - j,
{
    if j == cs.len() {
        assert(cs.take(j) =~= cs);
    } else {
        lemma_children_count_prefix(cs.drop_last(), grand, j);
        assert(cs.drop_last().take(j) =~= cs.take(j));
    }
}

proof fn lemma_parent_count_prefix(ps: Seq<(Seq<char>, Vec<String>)>, grand: Map<Seq<char>, Vec<String>>, i: int)
    requires
        0 <= i <= ps.len(),
    ensures
        parent_count(ps.take(i), grand) <= parent_count(ps, grand),
    decreases ps.len() - i,
{
    if i == ps.len() {
        assert(ps.take(i) =~= ps);
    } else {
        lemma_parent_count_prefix(ps.drop_last(), grand, i);
        assert(ps.drop_last().take(i) =~= ps.take(i));
    }
}

/// Law of the grandchild lines: the line at position `k` lists the grandchild
/// at position `k`, numbered `k + 1`, quoted, with its own vsize and weight
/// (its fields 0 and 1, or `DEFAULT_VALUE` for both when it has no data); so
/// each grandchild of the list is listed once, in order.
pub proof fn lemma_grandchild_lines_list_each(gs: Seq<Seq<char>>, data: Map<Seq<char>, Vec<String>>)
    ensures
        grandchild_lines(gs.take(0), data) == Seq::<char>::empty(),
        forall|k: int|
            0 <= k < gs.len() ==> #[trigger] grandchild_lines(gs.take(k + 1), data) == grandchild_lines(
                gs.take(k),
                data,
            ) + GRANDCHILD_START@ + decimal_text((k + 1) as nat) + GRANDCHILD_LABEL@ + debug_quoted(gs[k])
                + CHILD_GAP@ + (if data.contains_key(gs[k]) {
                data[gs[k]]@[0]@
            } else {
                DEFAULT_VALUE@
            }) + " - weight: "@ + (if data.contains_key(gs[k]) {
                data[gs[k]]@[1]@
            } else {
                DEFAULT_VALUE@
            }) + " )</p>"@,
{
    assert(gs.take(0).len() == 0);
    assert forall|k: int| 0 <= k < gs.len() implies #[trigger] grandchild_lines(gs.take(k + 1), data)
        == grandchild_lines(gs.take(k), data) + GRANDCHILD_START@ + decimal_text((k + 1) as nat)
        + GRANDCHILD_LABEL@ + debug_quoted(gs[k]) + CHILD_GAP@ + (if data.contains_key(gs[k]) {
        data[gs[k]]@[0]@
    } else {
        DEFAULT_VALUE@
    }) + " - weight: "@ + (if data.contains_key(gs[k]) {
        data[gs[k]]@[1]@
    } else {
        DEFAULT_VALUE@
    }) + " )</p>"@ by {
        let t = gs.take(k + 1);
        assert(t.drop_last() =~= gs.take(k));
        assert(t.last() == gs[k]);
        assert(t.len() == k + 1);
        let sizes = tx_sizes(data, gs[k]);
        assert(grandchild_lines(t, data) =~= grandchild_lines(gs.take(k), data) + GRANDCHILD_START@
            + decimal_text((k + 1) as nat) + GRANDCHILD_LABEL@ + debug_quoted(gs[k]) + CHILD_GAP@
            + sizes.0 + " - weight: "@ + sizes.1 + " )</p>"@);
    }
}

/// Law of the child lines: the line at position `j` lists the child at
/// position `j`, numbered `j + 1`, quoted, with its own vsize and weight, and
/// is followed by the lines of that child's grandchildren (none when the
/// child has no entry among the grandchild edges).
pub proof fn lemma_children_lines_list_each(
    cs: Seq<Seq<char>>,
    grand: Map<Seq<char>, Vec<String>>,
    data: Map<Seq<char>, Vec<String>>,
)
    ensures
        children_lines(cs.take(0), grand, data) == Seq::<char>::empty(),
        forall|j: int|
            0 <= j < cs.len() ==> #[trigger] children_lines(cs.take(j + 1), grand, data) == children_lines(
                cs.take(j),
                grand,
                data,
            ) + CHILD_START@ + decimal_text((j + 1) as nat) + CHILD_LABEL@ + debug_quoted(cs[j]) + CHILD_GAP@
                + (if data.contains_key(cs[j]) {
                data[cs[j]]@[0]@
            } else {
                DEFAULT_VALUE@
            }) + " - weight: "@ + (if data.contains_key(cs[j]) {
                data[cs[j]]@[1]@
            } else {
                DEFAULT_VALUE@
            }) + " )</p>"@ + grandchild_lines(
                if grand.contains_key(cs[j]) {
                    texts(grand[cs[j]]@)
                } else {
                    Seq::empty()
                },
                data,
            ),
{
    assert(cs.take(0).len() == 0);
    assert forall|j: int| 0 <= j < cs.len() implies #[trigger] children_lines(cs.take(j + 1), grand, data)
        == children_lines(cs.take(j), grand, data) + CHILD_START@ + decimal_text((j + 1) as nat)
        + CHILD_LABEL@ + debug_quoted(cs[j]) + CHILD_GAP@ + (if data.contains_key(cs[j]) {
        data[cs[j]]@[0]@
    } else {
        DEFAULT_VALUE@
    }) + " - weight: "@ + (if data.contains_key(cs[j]) {
        data[cs[j]]@[1]@
    } else {
        DEFAULT_VALUE@
    }) + " )</p>"@ + grandchild_lines(
        if grand.contains_key(cs[j]) {
            texts(grand[cs[j]]@)
        } else {
            Seq::empty()
        },
        data,
    ) by {
        lemma_children_lines_step(cs, grand, data, j);
    }
}

proof fn lemma_children_lines_step(
    cs: Seq<Seq<char>>,
    grand: Map<Seq<char>, Vec<String>>,
    data: Map<Seq<char>, Vec<String>>,
    j: int,
)
    requires
        0 <= j < cs.len(),
    ensures
        children_lines(cs.take(j + 1), grand, data) == children_lines(cs.take(j), grand, data)
            + CHILD_START@ + decimal_text((j + 1) as nat) + CHILD_LABEL@ + debug_quoted(cs[j])
            + CHILD_GAP@ + tx_sizes(data, cs[j]).0 + " - weight: "@ + tx_sizes(data, cs[j]).1
            + " )</p>"@ + grandchild_lines(grandchildren_of(grand, cs[j]), data),
{
    let t = cs.take(j + 1);
    assert(t.drop_last() =~= cs.take(j));
    assert(t.last() == cs[j]);
    assert(t.len() == j + 1);
    let prev = children_lines(cs.take(j), grand, data);
    let sizes = tx_sizes(data, cs[j]);
    let line = CHILD_START@ + decimal_text((j + 1) as nat) + CHILD_LABEL@ + debug_quoted(cs[j])
        + CHILD_GAP@ + sizes.0 + " - weight: "@ + sizes.1 + " )</p>"@;
    let gl = grandchild_lines(grandchildren_of(grand, cs[j]), data);
    assert(child_line((j + 1) as nat, cs[j], sizes) == line);
    assert(children_lines(t, grand, data) == prev + line + gl);
}

/// Law of the parent lines: the line at position `i` lists the parent at
/// position `i`, numbered `i + 1`, quoted, with its own vsize and weight, and
/// is followed by the lines of that parent's children.
pub proof fn lemma_parent_lines_list_each(
    ps: Seq<(Seq<char>, Vec<String>)>,
    grand: Map<Seq<char>, Vec<String>>,
    data: Map<Seq<char>, Vec<String>>,
)
    ensures
        parent_lines(ps.take(0), grand, data) == Seq::<char>::empty(),
        forall|i: int|
            0 <= i < ps.len() ==> #[trigger] parent_lines(ps.take(i + 1), grand, data) == parent_lines(
                ps.take(i),
                grand,
                data,
            ) + PARENT_START@ + decimal_text((i + 1) as nat) + PARENT_LABEL@ + debug_quoted(ps[i].0)
                + PARENT_GAP@ + (if data.contains_key(ps[i].0) {
                data[ps[i].0]@[0]@
            } else {
                DEFAULT_VALUE@
            }) + " - weight: "@ + (if data.contains_key(ps[i].0) {
                data[ps[i].0]@[1]@
            } else {
                DEFAULT_VALUE@
            }) + " )</p>"@ + children_lines(texts(ps[i].1@), grand, data),
{
    assert(ps.take(0).len() == 0);
    assert forall|i: int| 0 <= i < ps.len() implies #[trigger] parent_lines(ps.take(i + 1), grand, data)
        == parent_lines(ps.take(i), grand, data) + PARENT_START@ + decimal_text((i + 1) as nat)
        + PARENT_LABEL@ + debug_quoted(ps[i].0) + PARENT_GAP@ + (if data.contains_key(ps[i].0) {
        data[ps[i].0]@[0]@
    } else {
        DEFAULT_VALUE@
    }) + " - weight: "@ + (if data.contains_key(ps[i].0) {
        data[ps[i].0]@[1]@
    } else {
        DEFAULT_VALUE@
    }) + " )</p>"@ + children_lines(texts(ps[i].1@), grand, data) by {
        lemma_parent_lines_step(ps, grand, data, i);
    }
}

proof fn lemma_parent_lines_step(
    ps: Seq<(Seq<char>, Vec<String>)>,
    grand: Map<Seq<char>, Vec<String>>,
    data: Map<Seq<char>, Vec<String>>,
    i: int,
)
    requires
        0 <= i < ps.len(),
    ensures
        parent_lines(ps.take(i + 1), grand, data) == parent_lines(ps.take(i), grand, data)
            + PARENT_START@ + decimal_text((i + 1) as nat) + PARENT_LABEL@ + debug_quoted(ps[i].0)
            + PARENT_GAP@ + tx_sizes(data, ps[i].0).0 + " - weight: "@ + tx_sizes(data, ps[i].0).1
            + " )</p>"@ + children_lines(texts(ps[i].1@), grand, data),
{
    let t = ps.take(i + 1);
    assert(t.drop_last() =~= ps.take(i));
    assert(t.last() == ps[i]);
    assert(t.len() == i + 1);
    let prev = parent_lines(ps.take(i), grand, data);
    let sizes = tx_sizes(data, ps[i].0);
    let line = PARENT_START@ + decimal_text((i + 1) as nat) + PARENT_LABEL@ + debug_quoted(ps[i].0)
        + PARENT_GAP@ + sizes.0 + " - weight: "@ + sizes.1 + " )</p>"@;
    let cl = children_lines(texts(ps[i].1@), grand, data);
    assert(parent_line((i + 1) as nat, ps[i].0, sizes) == line);
    assert(parent_lines(t, grand, data) == prev + line + cl);
}

/// Law of the line count of children: a child with its grandchildren counts
/// one line, plus one for each id in its list of grandchildren (none when it
/// has no entry among the grandchild edges); the count of two lists one
/// after the other is the sum of their counts.
pub proof fn lemma_children_count_adds(
    a: Seq<Seq<char>>,
    b: Seq<Seq<char>>,
    c: Seq<char>,
    grand: Map<Seq<char>, Vec<String>>,
)
    ensures
        children_count(Seq::empty(), grand) == 0,
        children_count(seq![c], grand) == 1 + if grand.contains_key(c) {
            grand[c]@.len()
        } else {
            0
        },
        children_count(a + b, grand) == children_count(a, grand) + children_count(b, grand),
    decreases b.len(),
{
    assert(seq![c].drop_last() =~= Seq::<Seq<char>>::empty());
    if b.len() == 0 {
        assert(a + b =~= a);
    } else {
        lemma_children_count_adds(a, b.drop_last(), c, grand);
        assert((a + b).drop_last() =~= a + b.drop_last());
        assert((a + b).last() == b.last());
    }
}

/// Law of the line count of the descendants page: a parent counts one line
/// plus the lines of its children with their grandchildren; the count of two
/// lists of parents one after the other is the sum of their counts.
pub proof fn lemma_parent_count_adds(
    a: Seq<(Seq<char>, Vec<String>)>,
    b: Seq<(Seq<char>, Vec<String>)>,
    p: (Seq<char>, Vec<String>),
    grand: Map<Seq<char>, Vec<String>>,
)
    ensures
        parent_count(Seq::empty(), grand) == 0,
        parent_count(seq![p], grand) == 1 + children_count(texts(p.1@), grand),
        parent_count(a + b, grand) == parent_count(a, grand) + parent_count(b, grand),
    decreases b.len(),
{
    assert(seq![p].drop_last() =~= Seq::<(Seq<char>, Vec<String>)>::empty());
    if b.len() == 0 {
        assert(a + b =~= a);
    } else {
        lemma_parent_count_adds(a, b.drop_last(), p, grand);
        assert((a + b).drop_last() =~= a + b.drop_last());
        assert((a + b).last() == b.last());
    }
}

/// The descendants page: the number of parents, then each parent of the
/// graph (in its order) with its vsize and weight, each of its children, and
/// each grandchild listed under a child; the lines of each level are numbered
/// from 1 within their parent, and the page ends with the number of lines.
/// Sizes come from the mempool data, `DEFAULT_VALUE` where a transaction is
/// not there. The line count is a 32-bit signed number: the page is made for
/// at most `i32::MAX` lines.
pub fn get_descen_html(separated_graph: &SeparatedTxGraph, mempool_data: &MempoolData) -> (page:
    HtmlContent)
    requires
        descen_sizes_known(
            separated_graph.parent_child_edges.pairs(),
            separated_graph.child_grandchild_edges@,
            mempool_data.entries@,
        ),
        parent_count(separated_graph.parent_child_edges.pairs(), separated_graph.child_grandchild_edges@)
            <= i32::MAX,
    ensures
        page.0@ == "<html><body>"@ + descen_head(separated_graph.parent_child_edges@.len())
            + parent_lines(
            separated_graph.parent_child_edges.pairs(),
            separated_graph.child_grandchild_edges@,
            mempool_data.entries@,
        ) + descen_foot(
            parent_count(
                separated_graph.parent_child_edges.pairs(),
                separated_graph.child_grandchild_edges@,
            ),
        ) + "</body></html>"@,
{
    let ghost ps = separated_graph.parent_child_edges.pairs();
    let ghost grand = separated_graph.child_grandchild_edges@;
    let ghost data = mempool_data.entries@;
    let ghost total = parent_count(ps, grand);
    let mut conta_todo: u64 = 0;
    let mut transactions = String::new();
    transactions.append("<h1>Txs de la Mempool</h1>");
    let conta_tot_padre = separated_graph.parent_child_edges.len();
    transactions.append("<h3> Total transacciones padre: ");
    transactions.append(decimal_string(conta_tot_padre as u64).as_str());
    transactions.append(" </h3>");
    transactions.append(TX_STYLE);
    let ghost head = transactions@;
    assert(head =~= descen_head(separated_graph.parent_child_edges@.len()));
    let parents = separated_graph.parent_child_edges.keys();
    let mut i: usize = 0;
    while i < parents.len()
        invariant
            0 <= i <= parents.len(),
            parents@ == separated_graph.parent_child_edges.key_list(),
            ps == separated_graph.parent_child_edges.pairs(),
            grand == separated_graph.child_grandchild_edges@,
            data == mempool_data.entries@,
            total == parent_count(ps, grand),
            total <= i32::MAX,
            descen_sizes_known(ps, grand, data),
            forall|k: Seq<char>| #[trigger]
                separated_graph.parent_child_edges@.contains_key(k)
                    <==> separated_graph.parent_child_edges.key_seq().contains(k),
            conta_todo == parent_count(ps.take(i as int), grand),
            transactions@ == head + parent_lines(ps.take(i as int), grand, data),
        decreases parents.len() - i,
    {
        let parent_id = &parents[i];
        assert(separated_graph.parent_child_edges.key_seq()[i as int] == parent_id@);
        let children = separated_graph.parent_child_edges.get(parent_id.as_str()).unwrap();
        assert(ps[i as int] == (parent_id@, *children));
        let ghost cs = texts(children@);
        proof {
            lemma_parent_count_prefix(ps, grand, i + 1);
            assert(ps.take(i + 1).drop_last() =~= ps.take(i as int));
            assert(ps.take(i + 1).last() == ps[i as int]);
        }
        let ghost base = parent_count(ps.take(i as int), grand) + 1;
        let ghost lines_before = transactions@ + parent_line((i + 1) as nat, parent_id@, tx_sizes(data, parent_id@));
        let sizes = tx_sizes_of(mempool_data, parent_id.as_str());
        let conta_padre = (i + 1) as u64;
        let quoted = debug_string(parent_id.as_str());
        push_tx_line(
            &mut transactions,
            PARENT_START,
            conta_padre,
            PARENT_LABEL,
            quoted.as_str(),
            PARENT_GAP,
            &sizes,
        );
        assert(transactions@ =~= lines_before);
        conta_todo = conta_todo + 1;
        let mut j: usize = 0;
        while j < children.len()
            invariant
                0 <= j <= children.len(),
                0 <= i < ps.len(),
                ps[i as int].1 == *children,
                cs == texts(children@),
                grand == separated_graph.child_grandchild_edges@,
                data == mempool_data.entries@,
                total <= i32::MAX,
                descen_sizes_known(ps, grand, data),
                base + children_count(cs, grand) <= total,
                conta_todo == base + children_count(cs.take(j as int), grand),
                transactions@ == lines_before + children_lines(cs.take(j as int), grand, data),
            decreases children.len() - j,
        {
            let child_id = &children[j];
            assert(cs[j as int] == child_id@);
            proof {
                lemma_children_count_prefix(cs, grand, j + 1);
                assert(cs.take(j + 1).drop_last() =~= cs.take(j as int));
                assert(cs.take(j + 1).last() == child_id@);
                assert(ps[i as int].1@[j as int] == *child_id);
            }
            let ghost child_lines_before = transactions@ + child_line(
                (j + 1) as nat,
                child_id@,
                tx_sizes(data, child_id@),
            );
            let sizes = tx_sizes_of(mempool_data, child_id.as_str());
            let conta_hijo = (j + 1) as u64;
            let quoted = debug_string(child_id.as_str());
            push_tx_line(
                &mut transactions,
                CHILD_START,
                conta_hijo,
                CHILD_LABEL,
                quoted.as_str(),
                CHILD_GAP,
                &sizes,
            );
            assert(transactions@ =~= child_lines_before);
            conta_todo = conta_todo + 1;
            let ghost gs = grandchildren_of(grand, child_id@);
            match separated_graph.child_grandchild_edges.get(child_id.as_str()) {
                Some(grandchildrens) => {
                    assert(gs == texts(grandchildrens@));
                    proof {
                        assert forall|k: int| 0 <= k < gs.len() implies sizes_known(data, #[trigger] gs[k]) by {
                            assert(ps[i as int].1@[j as int]@ == child_id@);
                            assert(sizes_known(data, grandchildren_of(grand, ps[i as int].1@[j as int]@)[k]));
                        }
                    }
                    append_grandchild_lines(&mut transactions, grandchildrens, mempool_data);
                    conta_todo = conta_todo + grandchildrens.len() as u64;
                },
                None => {
                    assert(gs =~= Seq::<Seq<char>>::empty());
                    assert(transactions@ =~= child_lines_before + grandchild_lines(gs, data));
                },
            }
            assert(transactions@ =~= lines_before + children_lines(cs.take(j + 1), grand, data));
            j = j + 1;
        }
        assert(cs.take(children.len() as int) =~= cs);
        assert(transactions@ =~= head + parent_lines(ps.take(i + 1), grand, data));
        i = i + 1;
    }
    assert(ps.take(parents.len() as int) =~= ps);
    transactions.append("\n<p > Total líneas listado  ");
    transactions.append(decimal_string(conta_todo).as_str());
    transactions.append(" : </p>");
    let mut html_output = String::from_str("<html><body>");
    html_output.append(transactions.as_str());
    html_output.append("</body></html>");
    assert(html_output@ =~= "<html><body>"@ + descen_head(separated_graph.parent_child_edges@.len())
        + parent_lines(ps, grand, data) + descen_foot(total) + "</body></html>"@);
    HtmlContent(html_output)
}

/// A transaction as the descendants document lists it: id, vsize, weight.
pub struct TxFields {
    pub id: String,
    pub vsize: String,
    pub weight: String,
}

/// The `[id, vsize, weight]` row of a transaction.
pub open spec fn tx_row(data: Map<Seq<char>, Vec<String>>, id: Seq<char>) -> Seq<Seq<char>> {
    seq![id, tx_sizes(data, id).0, tx_sizes(data, id).1]
}

/// Law of the rows of the descendants document: the row of a transaction in
/// the data is its id, its field 0 and its field 1 (whatever further fields
/// it has); the row of one not in the data is its id and `DEFAULT_VALUE`
/// twice.
pub proof fn lemma_tx_row_fields(data: Map<Seq<char>, Vec<String>>, id: Seq<char>)
    ensures
        data.contains_key(id) ==> tx_row(data, id) == seq![id, data[id]@[0]@, data[id]@[1]@],
        !data.contains_key(id) ==> tx_row(data, id) == seq![id, DEFAULT_VALUE@, DEFAULT_VALUE@],
{
}

impl TxFields {
    /// The row of this transaction.
    pub open spec fn row(&self) -> Seq<Seq<char>> {
        seq![self.id@, self.vsize@, self.weight@]
    }
}

/// The object that the descendants document holds for a parent: nothing, a
/// parent and a child (members "0" and "1"), or a parent, a child and a
/// grandchild (members "0", "1" and "2").
pub enum DescenObject {
    Empty,
    Pair(TxFields, TxFields),
    Triple(TxFields, TxFields, TxFields),
}

impl DescenObject {
    /// The rows of the object, member "0" first.
    pub open spec fn rows(&self) -> Seq<Seq<Seq<char>>> {
        match self {
            DescenObject::Empty => Seq::empty(),
            DescenObject::Pair(p, c) => seq![p.row(), c.row()],
            DescenObject::Triple(p, c, g) => seq![p.row(), c.row(), g.row()],
        }
    }
}

/// The rows of the object of parent `p` after its children `cs`, in order:
/// each child replaces the object by the parent and that child, or, if the
/// child has an entry among the grandchild edges, by the parent, the child
/// and its last grandchild (leaving it as it was when that entry is empty).
pub open spec fn descen_rows(
    p: Seq<char>,
    cs: Seq<Seq<char>>,
    grand: Map<Seq<char>, Vec<String>>,
    data: Map<Seq<char>, Vec<String>>,
) -> Seq<Seq<Seq<char>>>
    decreases cs.len(),
{
    if cs.len() == 0 {
        Seq::empty()
    } else {
        let c = cs.last();
        if grand.contains_key(c) {
            let gs = texts(grand[c]@);
            if gs.len() > 0 {
                seq![tx_row(data, p), tx_row(data, c), tx_row(data, gs.last())]
            } else {
                descen_rows(p, cs.drop_last(), grand, data)
            }
        } else {
            seq![tx_row(data, p), tx_row(data, c)]
        }
    }
}

/// Whether `c` has an entry among the grandchild edges that lists nobody.
pub open spec fn has_empty_entry(grand: Map<Seq<char>, Vec<String>>, c: Seq<char>) -> bool {
    grand.contains_key(c) && grand[c]@.len() == 0
}

/// Law of the object of a parent: only the last child without an empty entry
/// among the grandchild edges counts. With none such, the object is empty;
/// otherwise it holds the parent's row and that child's row, and, when the
/// child has grandchildren, the row of the last of them.
pub proof fn lemma_descen_rows_last_child(
    p: Seq<char>,
    cs: Seq<Seq<char>>,
    grand: Map<Seq<char>, Vec<String>>,
    data: Map<Seq<char>, Vec<String>>,
)
    ensures
        (forall|j: int| 0 <= j < cs.len() ==> has_empty_entry(grand, #[trigger] cs[j])) ==> descen_rows(
            p,
            cs,
            grand,
            data,
        ) == Seq::<Seq<Seq<char>>>::empty(),
        forall|j: int|
            0 <= j < cs.len() && !has_empty_entry(grand, #[trigger] cs[j]) && (forall|k: int|
                j < k < cs.len() ==> has_empty_entry(grand, #[trigger] cs[k])) ==> descen_rows(
                p,
                cs,
                grand,
                data,
            ) == if grand.contains_key(cs[j]) {
                seq![tx_row(data, p), tx_row(data, cs[j]), tx_row(data, texts(grand[cs[j]]@).last())]
            } else {
                seq![tx_row(data, p), tx_row(data, cs[j])]
            },
{
    if forall|j: int| 0 <= j < cs.len() ==> has_empty_entry(grand, #[trigger] cs[j]) {
        lemma_descen_rows_none(p, cs, grand, data);
    }
    assert forall|j: int|
        0 <= j < cs.len() && !has_empty_entry(grand, #[trigger] cs[j]) && (forall|k: int|
            j < k < cs.len() ==> has_empty_entry(grand, #[trigger] cs[k])) implies descen_rows(
        p,
        cs,
        grand,
        data,
    ) == if grand.contains_key(cs[j]) {
        seq![tx_row(data, p), tx_row(data, cs[j]), tx_row(data, texts(grand[cs[j]]@).last())]
    } else {
        seq![tx_row(data, p), tx_row(data, cs[j])]
    } by {
        lemma_descen_rows_at(p, cs, grand, data, j);
    }
}

proof fn lemma_descen_rows_none(
    p: Seq<char>,
    cs: Seq<Seq<char>>,
    grand: Map<Seq<char>, Vec<String>>,
    data: Map<Seq<char>, Vec<String>>,
)
    requires
        forall|j: int| 0 <= j < cs.len() ==> has_empty_entry(grand, #[trigger] cs[j]),
    ensures
        descen_rows(p, cs, grand, data) == Seq::<Seq<Seq<char>>>::empty(),
    decreases cs.len(),
{
    if cs.len() > 0 {
        assert(has_empty_entry(grand, cs[cs.len() - 1]));
        assert(texts(grand[cs.last()]@).len() == 0);
        assert forall|j: int| 0 <= j < cs.drop_last().len() implies has_empty_entry(
            grand,
            #[trigger] cs.drop_last()[j],
        ) by {
            assert(cs.drop_last()[j] == cs[j]);
        }
        lemma_descen_rows_none(p, cs.drop_last(), grand, data);
    }
}

proof fn lemma_descen_rows_at(
    p: Seq<char>,
    cs: Seq<Seq<char>>,
    grand: Map<Seq<char>, Vec<String>>,
    data: Map<Seq<char>, Vec<String>>,
    j: int,
)
    requires
        0 <= j < cs.len(),
        !has_empty_entry(grand, cs[j]),
        forall|k: int| j < k < cs.len() ==> has_empty_entry(grand, #[trigger] cs[k]),
    ensures
        descen_rows(p, cs, grand, data) == if grand.contains_key(cs[j]) {
            seq![tx_row(data, p), tx_row(data, cs[j]), tx_row(data, texts(grand[cs[j]]@).last())]
        } else {
            seq![tx_row(data, p), tx_row(data, cs[j])]
        },
    decreases cs.len(),
{
    if j == cs.len() - 1 {
        if grand.contains_key(cs[j]) {
            assert(texts(grand[cs[j]]@).len() > 0);
        }
    } else {
        assert(has_empty_entry(grand, cs[cs.len() - 1]));
        assert(texts(grand[cs.last()]@).len() == 0);
        assert(cs.drop_last()[j] == cs[j]);
        assert forall|k: int| j < k < cs.drop_last().len() implies has_empty_entry(
            grand,
            #[trigger] cs.drop_last()[k],
        ) by {
            assert(cs.drop_last()[k] == cs[k]);
        }
        lemma_descen_rows_at(p, cs.drop_last(), grand, data, j);
    }
}

fn tx_fields(mempool_data: &MempoolData, id: &String) -> (f: TxFields)
    requires
        sizes_known(mempool_data.entries@, id@),
    ensures
        f.row() == tx_row(mempool_data.entries@, id@),
{
    let (vsize, weight) = tx_sizes_of(mempool_data, id.as_str());
    TxFields { id: id.clone(), vsize, weight }
}

/// The object of one parent with its children; see `descen_rows`.
fn descen_object(
    parent_id: &String,
    children: &Vec<String>,
    separated_graph: &SeparatedTxGraph,
    mempool_data: &MempoolData,
) -> (o: DescenObject)
    requires
        sizes_known(mempool_data.entries@, parent_id@),
        forall|j: int|
            0 <= j < children@.len() ==> {
                &&& sizes_known(mempool_data.entries@, (#[trigger] children@[j])@)
                &&& forall|k: int|
                    0 <= k < grandchildren_of(separated_graph.child_grandchild_edges@, children@[j]@).len()
                        ==> sizes_known(
                        mempool_data.entries@,
                        #[trigger] grandchildren_of(separated_graph.child_grandchild_edges@, children@[j]@)[k],
                    )
            },
    ensures
        o.rows() == descen_rows(
            parent_id@,
            texts(children@),
            separated_graph.child_grandchild_edges@,
            mempool_data.entries@,
        ),
{
    let ghost cs = texts(children@);
    let ghost grand = separated_graph.child_grandchild_edges@;
    let ghost data = mempool_data.entries@;
    let mut parent_object = DescenObject::Empty;
    let mut j: usize = 0;
    while j < children.len()
        invariant
            0 <= j <= children.len(),
            cs == texts(children@),
            grand == separated_graph.child_grandchild_edges@,
            data == mempool_data.entries@,
            sizes_known(data, parent_id@),
            forall|j: int|
                0 <= j < children@.len() ==> {
                    &&& sizes_known(data, (#[trigger] children@[j])@)
                    &&& forall|k: int|
                        0 <= k < grandchildren_of(grand, children@[j]@).len() ==> sizes_known(
                            data,
                            #[trigger] grandchildren_of(grand, children@[j]@)[k],
                        )
                },
            parent_object.rows() == descen_rows(parent_id@, cs.take(j as int), grand, data),
        decreases children.len() - j,
    {
        let child_id = &children[j];
        assert(cs[j as int] == child_id@);
        proof {
            assert(cs.take(j + 1).drop_last() =~= cs.take(j as int));
            assert(cs.take(j + 1).last() == child_id@);
        }
        match separated_graph.child_grandchild_edges.get(child_id.as_str()) {
            Some(grandchildrens) => {
                let ghost gs = texts(grandchildrens@);
                assert(gs == grandchildren_of(grand, children@[j as int]@));
                let mut k: usize = 0;
                while k < grandchildrens.len()
                    invariant
                        0 <= k <= grandchildrens.len(),
                        gs == texts(grandchildrens@),
                        data == mempool_data.entries@,
                        sizes_known(data, parent_id@),
                        sizes_known(data, child_id@),
                        forall|k: int| 0 <= k < gs.len() ==> sizes_known(data, #[trigger] gs[k]),
                        k == 0 ==> parent_object.rows() == descen_rows(parent_id@, cs.take(j as int), grand, data),
                        k > 0 ==> parent_object.rows() == seq![
                            tx_row(data, parent_id@),
                            tx_row(data, child_id@),
                            tx_row(data, gs[k - 1]),
                        ],
                    decreases grandchildrens.len() - k,
                {
                    let grandchild_id = &grandchildrens[k];
                    assert(gs[k as int] == grandchild_id@);
                    parent_object = DescenObject::Triple(
                        tx_fields(mempool_data, parent_id),
                        tx_fields(mempool_data, child_id),
                        tx_fields(mempool_data, grandchild_id),
                    );
                    k = k + 1;
                }
            },
            None => {
                parent_object = DescenObject::Pair(
                    tx_fields(mempool_data, parent_id),
                    tx_fields(mempool_data, child_id),
                );
            },
        }
        j = j + 1;
    }
    assert(cs.take(children.len() as int) =~= cs);
    parent_object
}

/// The objects of the descendants document: one per parent of the graph, in
/// its order; see `descen_rows`. Sizes come from the mempool data,
/// `DEFAULT_VALUE` where a transaction is not there.
pub fn descen_objects(separated_graph: &SeparatedTxGraph, mempool_data: &MempoolData) -> (transactions:
    Vec<DescenObject>)
    requires
        descen_sizes_known(
            separated_graph.parent_child_edges.pairs(),
            separated_graph.child_grandchild_edges@,
            mempool_data.entries@,
        ),
    ensures
        transactions@.len() == separated_graph.parent_child_edges.pairs().len(),
        forall|i: int|
            0 <= i < transactions@.len() ==> (#[trigger] transactions@[i]).rows() == descen_rows(
                separated_graph.parent_child_edges.pairs()[i].0,
                texts(separated_graph.parent_child_edges.pairs()[i].1@),
                separated_graph.child_grandchild_edges@,
                mempool_data.entries@,
            ),
{
    let ghost ps = separated_graph.parent_child_edges.pairs();
    let mut transactions: Vec<DescenObject> = Vec::new();
    let parents = separated_graph.parent_child_edges.keys();
    let mut i: usize = 0;
    while i < parents.len()
        invariant
            0 <= i <= parents.len(),
            parents@ == separated_graph.parent_child_edges.key_list(),
            ps == separated_graph.parent_child_edges.pairs(),
            descen_sizes_known(ps, separated_graph.child_grandchild_edges@, mempool_data.entries@),
            forall|k: Seq<char>| #[trigger]
                separated_graph.parent_child_edges@.contains_key(k)
                    <==> separated_graph.parent_child_edges.key_seq().contains(k),
            transactions@.len() == i,
            forall|a: int|
                0 <= a < i ==> (#[trigger] transactions@[a]).rows() == descen_rows(
                    ps[a].0,
                    texts(ps[a].1@),
                    separated_graph.child_grandchild_edges@,
                    mempool_data.entries@,
                ),
        decreases parents.len() - i,
    {
        let parent_id = &parents[i];
        assert(separated_graph.parent_child_edges.key_seq()[i as int] == parent_id@);
        let children = separated_graph.parent_child_edges.get(parent_id.as_str()).unwrap();
        assert(ps[i as int] == (parent_id@, *children));
        proof {
            let grand = separated_graph.child_grandchild_edges@;
            let data = mempool_data.entries@;
            assert(sizes_known(data, ps[i as int].0));
            assert forall|j: int| 0 <= j < children@.len() implies {
                &&& sizes_known(data, (#[trigger] children@[j])@)
                &&& forall|k: int|
                    0 <= k < grandchildren_of(grand, children@[j]@).len() ==> sizes_known(
                        data,
                        #[trigger] grandchildren_of(grand, children@[j]@)[k],
                    )
            } by {
                assert(ps[i as int].1@[j] == children@[j]);
            }
        }
        let parent_object = descen_object(parent_id, children, separated_graph, mempool_data);
        transactions.push(parent_object);
        i = i + 1;
    }
    transactions
}

/// Texts joined by commas.
pub open spec fn comma_joined(parts: Seq<Seq<char>>) -> Seq<char>
    decreases parts.len(),
{
    if parts.len() == 0 {
        Seq::empty()
    } else if parts.len() == 1 {
        parts[0]
    } else {
        comma_joined(parts.drop_last()) + ","@ + parts.last()
    }
}

/// The member of a descendants object at position `i`: the name `"i"`, then
/// the row as a JSON array of strings.
pub open spec fn json_member(i: nat, row: Seq<Seq<char>>) -> Seq<char> {
    "\""@ + decimal_text(i) + "\":"@ + json_array_text(row)
}

/// The JSON object of the rows of a parent: members `"0"`, `"1"`, ... in
/// order; `{}` when there are none.
pub open spec fn json_rows_object(rows: Seq<Seq<Seq<char>>>) -> Seq<char> {
    "{"@ + comma_joined(Seq::new(rows.len(), |i: int| json_member(i as nat, rows[i]))) + "}"@
}

/// The descendants document: an object whose one member, `"transacciones"`,
/// is the array of the parents' objects, in order.
pub open spec fn descen_document(objects: Seq<Seq<Seq<Seq<char>>>>) -> Seq<char> {
    "{\"transacciones\":["@
        + comma_joined(Seq::new(objects.len(), |i: int| json_rows_object(objects[i])))
        + "]}"@
}

/// Law of the objects of the descendants document: no rows give `{}`; two
/// rows give the members `"0"` and `"1"`, three rows the members `"0"`, `"1"`
/// and `"2"`, each holding its row as a JSON array, in order.
pub proof fn lemma_json_rows_object_members(
    r0: Seq<Seq<char>>,
    r1: Seq<Seq<char>>,
    r2: Seq<Seq<char>>,
)
    ensures
        json_rows_object(Seq::empty()) == "{}"@,
        json_rows_object(seq![r0, r1]) == "{\"0\":"@ + json_array_text(r0) + ",\"1\":"@ + json_array_text(
            r1,
        ) + "}"@,
        json_rows_object(seq![r0, r1, r2]) == "{\"0\":"@ + json_array_text(r0) + ",\"1\":"@
            + json_array_text(r1) + ",\"2\":"@ + json_array_text(r2) + "}"@,
{
    reveal_strlit("{}");
    reveal_strlit("{");
    reveal_strlit("}");
    reveal_strlit(",");
    reveal_strlit("\"");
    reveal_strlit("\":");
    reveal_strlit("{\"0\":");
    reveal_strlit(",\"1\":");
    reveal_strlit(",\"2\":");
    reveal_with_fuel(comma_joined, 4);
    assert(decimal_text(0) =~= seq!['0']);
    assert(decimal_text(1) =~= seq!['1']);
    assert(decimal_text(2) =~= seq!['2']);
    assert(Seq::<Seq<char>>::empty().len() == 0);
    let e = Seq::new(0, |i: int| json_member(i as nat, Seq::<Seq<Seq<char>>>::empty()[i]));
    assert(comma_joined(e) == Seq::<char>::empty());
    assert(json_rows_object(Seq::empty()) =~= "{}"@);
    let rows2 = seq![r0, r1];
    let m2 = Seq::new(2, |i: int| json_member(i as nat, rows2[i]));
    assert(m2.drop_last() =~= seq![json_member(0, r0)]);
    assert(comma_joined(m2) == json_member(0, r0) + ","@ + json_member(1, r1));
    assert(json_rows_object(rows2) =~= "{\"0\":"@ + json_array_text(r0) + ",\"1\":"@ + json_array_text(r1) + "}"@);
    let rows3 = seq![r0, r1, r2];
    let m3 = Seq::new(3, |i: int| json_member(i as nat, rows3[i]));
    assert(m3.drop_last() =~= m2);
    assert(comma_joined(m3) == json_member(0, r0) + ","@ + json_member(1, r1) + ","@ + json_member(2, r2));
    assert(json_rows_object(rows3) =~= "{\"0\":"@ + json_array_text(r0) + ",\"1\":"@ + json_array_text(r1)
        + ",\"2\":"@ + json_array_text(r2) + "}"@);
}

/// Law of the descendants document: it is `{"transacciones":[`, the objects
/// of the parents in order separated by commas, and `]}`; shown here for
/// none, one and two parents.
pub proof fn lemma_descen_document_parts(
    a: Seq<Seq<Seq<char>>>,
    b: Seq<Seq<Seq<char>>>,
)
    ensures
        descen_document(Seq::empty()) == "{\"transacciones\":[]}"@,
        descen_document(seq![a]) == "{\"transacciones\":["@ + json_rows_object(a) + "]}"@,
        descen_document(seq![a, b]) == "{\"transacciones\":["@ + json_rows_object(a) + ","@
            + json_rows_object(b) + "]}"@,
{
    reveal_strlit("{\"transacciones\":[]}");
    reveal_strlit("{\"transacciones\":[");
    reveal_strlit("]}");
    reveal_with_fuel(comma_joined, 3);
    let e = Seq::new(0, |i: int| json_rows_object(Seq::<Seq<Seq<Seq<char>>>>::empty()[i]));
    assert(comma_joined(e) == Seq::<char>::empty());
    assert(descen_document(Seq::empty()) =~= "{\"transacciones\":[]}"@);
    let o1 = seq![a];
    let p1 = Seq::new(1, |i: int| json_rows_object(o1[i]));
    assert(comma_joined(p1) == json_rows_object(a));
    let o2 = seq![a, b];
    let p2 = Seq::new(2, |i: int| json_rows_object(o2[i]));
    assert(p2.drop_last() =~= p1);
    assert(comma_joined(p2) == json_rows_object(a) + ","@ + json_rows_object(b));
}

proof fn lemma_comma_joined_step(parts: Seq<Seq<char>>, k: int)
    requires
        0 <= k < parts.len(),
    ensures
        comma_joined(parts.take(k + 1)) == if k == 0 {
            parts[0]
        } else {
            comma_joined(parts.take(k)) + ","@ + parts[k]
        },
{
    assert(parts.take(k + 1).drop_last() =~= parts.take(k));
    assert(parts.take(k + 1).last() == parts[k]);
    if k == 0 {
        assert(parts.take(1).len() == 1);
    }
}

impl TxFields {
    /// The fields as a list: id, vsize, weight.
    pub fn strings(&self) -> (v: Vec<String>)
        ensures
            texts(v@) == self.row(),
    {
        let mut v: Vec<String> = Vec::new();
        v.push(self.id.clone());
        v.push(self.vsize.clone());
        v.push(self.weight.clone());
        assert(texts(v@) =~= self.row());
        v
    }
}

impl DescenObject {
    /// The rows of the object as lists of strings.
    pub fn row_lists(&self) -> (v: Vec<Vec<String>>)
        ensures
            v@.len() == self.rows().len(),
            forall|i: int| 0 <= i < v@.len() ==> texts((#[trigger] v@[i])@) == self.rows()[i],
    {
        let mut v: Vec<Vec<String>> = Vec::new();
        match self {
            DescenObject::Empty => {},
            DescenObject::Pair(p, c) => {
                v.push(p.strings());
                v.push(c.strings());
            },
            DescenObject::Triple(p, c, g) => {
                v.push(p.strings());
                v.push(c.strings());
                v.push(g.strings());
            },
        }
        v
    }

    /// Writes the object; see `json_rows_object`.
    pub fn json_text(&self) -> (s: String)
        ensures
            s@ == json_rows_object(self.rows()),
    {
        let rows = self.row_lists();
        let ghost rs = self.rows();
        let ghost members = Seq::new(rs.len(), |i: int| json_member(i as nat, rs[i]));
        let mut s = String::new();
        s.append("{");
        let mut r: usize = 0;
        while r < rows.len()
            invariant
                0 <= r <= rows.len(),
                rows@.len() == rs.len(),
                forall|i: int| 0 <= i < rows@.len() ==> texts((#[trigger] rows@[i])@) == rs[i],
                members == Seq::new(rs.len(), |i: int| json_member(i as nat, rs[i])),
                s@ == "{"@ + comma_joined(members.take(r as int)),
            decreases rows.len() - r,
        {
            proof {
                lemma_comma_joined_step(members, r as int);
            }
            if r > 0 {
                s.append(",");
            }
            let name = decimal_string(r as u64);
            let array = json_array_string(&rows[r]);
            s.append("\"");
            s.append(name.as_str());
            s.append("\":");
            s.append(array.as_str());
            assert(members[r as int] == json_member(r as nat, rs[r as int]));
            assert(s@ =~= "{"@ + comma_joined(members.take(r + 1)));
            r = r + 1;
        }
        assert(members.take(rows.len() as int) =~= members);
        s.append("}");
        s
    }
}

/// Writes the descendants document of `objects`; see `descen_document`.
pub fn descen_document_of(objects: &Vec<DescenObject>) -> (doc: JsonResponse)
    ensures
        doc.0@ == descen_document(objects@.map_values(|o: DescenObject| o.rows())),
{
    let ghost os = objects@.map_values(|o: DescenObject| o.rows());
    let ghost parts = Seq::new(os.len(), |i: int| json_rows_object(os[i]));
    let mut s = String::new();
    s.append("{\"transacciones\":[");
    let mut i: usize = 0;
    while i < objects.len()
        invariant
            0 <= i <= objects.len(),
            os == objects@.map_values(|o: DescenObject| o.rows()),
            parts == Seq::new(os.len(), |i: int| json_rows_object(os[i])),
            s@ == "{\"transacciones\":["@ + comma_joined(parts.take(i as int)),
        decreases objects.len() - i,
    {
        proof {
            lemma_comma_joined_step(parts, i as int);
        }
        if i > 0 {
            s.append(",");
        }
        let object = objects[i].json_text();
        assert(parts[i as int] == object@);
        s.append(object.as_str());
        assert(s@ =~= "{\"transacciones\":["@ + comma_joined(parts.take(i + 1)));
        i = i + 1;
    }
    assert(parts.take(objects.len() as int) =~= parts);
    s.append("]}");
    JsonResponse(s)
}

/// The descendants document of the graph: `{"transacciones":[...]}` with one
/// object per parent, in order, holding the rows that `descen_rows` gives.
pub fn get_descen_json(separated_graph: &SeparatedTxGraph, mempool_data: &MempoolData) -> (doc: JsonResponse)
    requires
        descen_sizes_known(
            separated_graph.parent_child_edges.pairs(),
            separated_graph.child_grandchild_edges@,
            mempool_data.entries@,
        ),
    ensures
        doc.0@ == descen_document(
            Seq::new(
                separated_graph.parent_child_edges.pairs().len(),
                |i: int|
                    descen_rows(
                        separated_graph.parent_child_edges.pairs()[i].0,
                        texts(separated_graph.parent_child_edges.pairs()[i].1@),
                        separated_graph.child_grandchild_edges@,
                        mempool_data.entries@,
                    ),
            ),
        ),
{
    let objects = descen_objects(separated_graph, mempool_data);
    let ghost ps = separated_graph.parent_child_edges.pairs();
    assert(objects@.map_values(|o: DescenObject| o.rows()) =~= Seq::new(
        ps.len(),
        |i: int|
            descen_rows(
                ps[i].0,
                texts(ps[i].1@),
                separated_graph.child_grandchild_edges@,
                mempool_data.entries@,
            ),
    ));
    descen_document_of(&objects)
}

/// jsonwebtoken's error.
#[verifier::external_type_specification]
#[verifier::external_body]
pub struct ExJwtError(jsonwebtoken::errors::Error);

/// The JSON Web Token that jsonwebtoken's `encode` makes with the default
/// header (HS256) for the claims `{"sub": sub, "company": company, "exp": exp}`
/// (members in that order), signed with the bytes of `secret`.
pub uninterp spec fn jwt_token(sub: Seq<char>, company: Seq<char>, exp: u64, secret: Seq<char>) -> Seq<char>;

/// Calls jsonwebtoken's `encode` with `Header::default()`, the claims object
/// `{"sub": sub, "company": company, "exp": exp}` (a `serde_json::Map`, which
/// keeps the members in that order) and `EncodingKey::from_secret` of the
/// bytes of `secret`. The contract claims that a token comes back, and that
/// it depends on these arguments alone (named `jwt_token`). `encode` fails only
/// when the key's family differs from the header's algorithm (both are HMAC
/// here), when serde_json cannot write the header or the claims (a derived
/// `Header` and a map of strings and an integer, which it always writes), or
/// when signing fails (HS256 signing always succeeds).
#[verifier::external_body]
fn encode_token(sub: &str, company: &str, exp: u64, secret: &str) -> (r: Result<
    String,
    jsonwebtoken::errors::Error,
>)
    ensures
        r is Ok,
        r matches Ok(token) ==> token@ == jwt_token(sub@, company@, exp, secret@),
{
    let mut claims = serde_json::Map::new();
    claims.insert("sub".to_string(), serde_json::Value::from(sub));
    claims.insert("company".to_string(), serde_json::Value::from(company));
    claims.insert("exp".to_string(), serde_json::Value::from(exp));
    let key = jsonwebtoken::EncodingKey::from_secret(secret.as_bytes());
    jsonwebtoken::encode(&jsonwebtoken::Header::default(), &claims, &key)
}

/// A fresh random (version 4) UUID as text: `uuid::Uuid::new_v4()` written by
/// its `Display`, the hyphenated lowercase form. The contract claims only the
/// shape of that form: 36 characters, hyphens at 8, 13, 18 and 23, and the
/// version digit `4` at 14; the rest is random.
#[verifier::external_body]
fn new_uuid_text() -> (id: String)
    ensures
        id@.len() == 36,
        id@[8] == '-' && id@[13] == '-' && id@[18] == '-' && id@[23] == '-',
        id@[14] == '4',
{
    uuid::Uuid::new_v4().to_string()
}

/// The company named in visitors' tokens.
pub const TOKEN_COMPANY: &'static str = "b2p5";

/// When visitors' tokens expire, in seconds since the Unix epoch.
pub const TOKEN_EXP: u64 = 10000000000;

/// The secret that signs visitors' tokens.
pub const TOKEN_SECRET: &'static str = "secret";

/// Why no token could be made.
#[derive(Clone, Copy, Debug, PartialEq, Eq, Structural)]
pub enum TokenError {
    /// jsonwebtoken could not encode the token.
    Encoding,
}

/// A new visitor token: a JSON Web Token whose subject is a fresh random
/// UUID, for the company `TOKEN_COMPANY`, expiring at `TOKEN_EXP`, signed with
/// `TOKEN_SECRET`. Making it always succeeds.
pub fn generate_token() -> (r: Result<String, TokenError>)
    ensures
        r matches Ok(token) && exists|sub: Seq<char>|
            sub.len() == 36 && sub[14] == '4' && token@ == jwt_token(sub, TOKEN_COMPANY@, TOKEN_EXP, TOKEN_SECRET@),
{
    let my_uuid = new_uuid_text();
    match encode_token(my_uuid.as_str(), TOKEN_COMPANY, TOKEN_EXP, TOKEN_SECRET) {
        Ok(token) => Ok(token),
        Err(_) => Err(TokenError::Encoding),
    }
}

} // verus!
