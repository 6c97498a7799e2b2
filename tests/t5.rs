use diffusion_rs_quant::t5::{
    default_is_decoder, default_relative_attention_max_distance, default_use_cache,
    feed_forward_proj_activation, get_mask, Activation, ActivationWithOptionalGating,
};

#[test]
fn causal_mask_hides_later_keys() {
    assert_eq!(get_mask(3), vec![0, 1, 1, 0, 0, 1, 0, 0, 0]);
    assert_eq!(get_mask(1), vec![0]);
    assert!(get_mask(0).is_empty());
}

#[test]
fn feed_forward_names() {
    let g = feed_forward_proj_activation(&"gated-gelu".to_string(), None);
    assert_eq!(g, Some(ActivationWithOptionalGating { gated: true, activation: Activation::NewGelu }));
    let s = feed_forward_proj_activation(&"gated-silu".to_string(), None);
    assert_eq!(s, Some(ActivationWithOptionalGating { gated: true, activation: Activation::Silu }));
    let r = feed_forward_proj_activation(&"relu".to_string(), Some(Activation::Relu));
    assert_eq!(r, Some(ActivationWithOptionalGating { gated: false, activation: Activation::Relu }));
    assert_eq!(feed_forward_proj_activation(&"nonsense".to_string(), None), None);
}

#[test]
fn config_defaults() {
    assert_eq!(default_relative_attention_max_distance(), 128);
    assert!(!default_is_decoder());
    assert!(default_use_cache());
    let d = ActivationWithOptionalGating::default();
    assert!(!d.gated);
    assert_eq!(d.activation, Activation::Gelu);
}
