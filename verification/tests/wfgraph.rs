use synthetrix::wfgraph::{api_layout, output_counts};
use synthetrix::wfgraph::norm_model_ref;
use synthetrix::wfgraph::truncate;
use synthetrix::wfgraph::WLink;

#[test]
fn model_refs_lose_their_folders() {
    assert_eq!(norm_model_ref("GGUFFlux\\Z\\WIP\\Fux.gguf"), "Fux.gguf");
    assert_eq!(norm_model_ref("a/b/model.SAFETENSORS"), "model.SAFETENSORS");
    assert_eq!(norm_model_ref("sdxl/vae.vae"), "vae.vae");
}

#[test]
fn other_values_pass_through() {
    assert_eq!(norm_model_ref("model.safetensors"), "model.safetensors");
    assert_eq!(norm_model_ref("a photo of a/b cat"), "a photo of a/b cat");
    assert_eq!(norm_model_ref("dir/readme.txt"), "dir/readme.txt");
    assert_eq!(norm_model_ref("dir/noext"), "dir/noext");
    assert_eq!(norm_model_ref(""), "");
}

#[test]
fn widget_values_fit_a_node() {
    assert_eq!(truncate("hello\nworld", 20), "hello world");
    assert_eq!(truncate("abcdef", 4), "abc…");
    assert_eq!(truncate("abcd", 4), "abcd");
    assert_eq!(truncate("abc", 0), "…");
    assert_eq!(truncate("ééééé", 3), "éé…");
}

#[test]
fn links_are_plain_values() {
    let l = WLink { from: 3, from_slot: 0, to: 8, to_slot: 1 };
    let m = l;
    assert_eq!((m.from, m.from_slot, m.to, m.to_slot), (3, 0, 8, 1));
}

fn lk(from: i64, from_slot: usize, to: i64) -> WLink {
    WLink { from, from_slot, to, to_slot: 0 }
}

#[test]
fn api_layout_puts_nodes_in_columns_by_depth() {
    // 0: checkpoint, 1: encoder(0), 2: encoder(0), 3: latent, 4: sampler(0,1,2,3), 5: decode(4,0), 6: save(5)
    let links = vec![lk(0, 1, 1), lk(0, 1, 2), lk(0, 0, 4), lk(1, 0, 4), lk(2, 0, 4), lk(3, 0, 4), lk(4, 0, 5), lk(0, 2, 5), lk(5, 0, 6)];
    let r = api_layout(7, &links);
    assert_eq!(r, vec![(0, 0), (1, 0), (1, 1), (0, 1), (2, 0), (3, 0), (4, 0)]);
    assert_eq!(output_counts(7, &links), vec![3, 1, 1, 1, 1, 1, 1]);
}

#[test]
fn api_layout_survives_a_cycle() {
    let r = api_layout(2, &vec![lk(0, 0, 1), lk(1, 0, 0)]);
    assert_eq!(r, vec![(2, 0), (1, 0)]);
    assert_eq!(api_layout(0, &vec![]), vec![]);
}
