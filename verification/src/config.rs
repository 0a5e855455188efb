//! The configuration surface: which block parameters the keys are built
//! for, and whether function evaluation or packing compression are
//! enabled.

use vstd::prelude::*;

use crate::parameters::{
    comp_params_for_message_2_carry_2_ks_pbs, param_message_2_carry_2_ks_pbs,
    param_message_2_carry_2_pbs_ks, wopbs_param_message_2_carry_2_ks_pbs, CompressionParameters,
    EncryptionKeyChoice, PBSParameters, WopbsParameters,
};

verus! {

/// The key-generation configuration of the integer layer.
#[derive(Clone, Copy, Debug, PartialEq, Eq, Structural)]
pub struct IntegerConfig {
    pub block_parameters: PBSParameters,
    pub wopbs_block_parameters: Option<WopbsParameters>,
    pub compression_parameters: Option<CompressionParameters>,
}

impl IntegerConfig {
    pub fn new(
        block_parameters: PBSParameters,
        wopbs_block_parameters: Option<WopbsParameters>,
        compression_parameters: Option<CompressionParameters>,
    ) -> (r: Self)
        ensures
            r.block_parameters == block_parameters,
            r.wopbs_block_parameters == wopbs_block_parameters,
            r.compression_parameters == compression_parameters,
    {
        IntegerConfig { block_parameters, wopbs_block_parameters, compression_parameters }
    }

    pub fn default_big() -> (r: Self)
        ensures
            r.block_parameters == PBSParameters::PBS(crate::parameters::spec_default_big_params()),
            r.wopbs_block_parameters is None,
            r.compression_parameters is None,
    {
        IntegerConfig {
            block_parameters: PBSParameters::PBS(param_message_2_carry_2_ks_pbs()),
            wopbs_block_parameters: None,
            compression_parameters: None,
        }
    }

    pub fn default_small() -> (r: Self)
        ensures
            r.wopbs_block_parameters is None,
            r.compression_parameters is None,
    {
        IntegerConfig {
            block_parameters: PBSParameters::PBS(param_message_2_carry_2_pbs_ks()),
            wopbs_block_parameters: None,
            compression_parameters: None,
        }
    }

    /// Enables the function-evaluation path.  Only parameter sets using
    /// the large encryption key support it.
    pub fn enable_wopbs(&mut self)
        requires
            match old(self).block_parameters {
                PBSParameters::PBS(p) => p.encryption_key_choice == EncryptionKeyChoice::Big,
                PBSParameters::MultiBitPBS(p) => p.base.encryption_key_choice
                    == EncryptionKeyChoice::Big,
            },
        ensures
            final(self).block_parameters == old(self).block_parameters,
            final(self).compression_parameters == old(self).compression_parameters,
            final(self).wopbs_block_parameters == Some(
                crate::parameters::spec_default_wopbs_params(),
            ),
    {
        self.wopbs_block_parameters = Some(wopbs_param_message_2_carry_2_ks_pbs());
    }

    pub fn enable_glwe_packing_compression(&mut self, compression_parameters: CompressionParameters)
        ensures
            final(self).block_parameters == old(self).block_parameters,
            final(self).wopbs_block_parameters == old(self).wopbs_block_parameters,
            final(self).compression_parameters == Some(compression_parameters),
    {
        self.compression_parameters = Some(compression_parameters);
    }
}

/// The user-facing configuration.
#[derive(Clone, Copy, Debug, PartialEq, Eq, Structural)]
pub struct Config {
    pub inner: IntegerConfig,
}

/// The builder to assemble a configuration: default parameters or custom
/// ones, with optional function evaluation and packing compression.
#[derive(Clone, Copy, Debug, PartialEq, Eq, Structural)]
pub struct ConfigBuilder {
    pub config: Config,
}

impl Default for ConfigBuilder {
    fn default() -> (r: Self)
        ensures
            r.config.inner.block_parameters == PBSParameters::PBS(
                crate::parameters::spec_default_big_params(),
            ),
            r.config.inner.wopbs_block_parameters is None,
            r.config.inner.compression_parameters is None,
    {
        ConfigBuilder::default_with_big_encryption()
    }
}

impl ConfigBuilder {
    /// Enables the function-evaluation path on the configuration.
    pub fn enable_function_evaluation(self) -> (r: Self)
        requires
            match self.config.inner.block_parameters {
                PBSParameters::PBS(p) => p.encryption_key_choice == EncryptionKeyChoice::Big,
                PBSParameters::MultiBitPBS(p) => p.base.encryption_key_choice
                    == EncryptionKeyChoice::Big,
            },
        ensures
            r.config.inner.block_parameters == self.config.inner.block_parameters,
            r.config.inner.wopbs_block_parameters is Some,
    {
        let mut updated = self;
        updated.config.inner.enable_wopbs();
        updated
    }

    /// Enables packing compression with the given parameters.
    pub fn enable_glwe_packing_compression(
        self,
        compression_parameters: CompressionParameters,
    ) -> (r: Self)
        ensures
            r.config.inner.block_parameters == self.config.inner.block_parameters,
            r.config.inner.wopbs_block_parameters == self.config.inner.wopbs_block_parameters,
            r.config.inner.compression_parameters == Some(compression_parameters),
    {
        let mut updated = self;
        updated.config.inner.enable_glwe_packing_compression(compression_parameters);
        updated
    }

    /// Default parameters with the large encryption key.
    pub fn default_with_big_encryption() -> (r: Self)
        ensures
            r.config.inner.block_parameters == PBSParameters::PBS(
                crate::parameters::spec_default_big_params(),
            ),
            r.config.inner.wopbs_block_parameters is None,
            r.config.inner.compression_parameters is None,
    {
        ConfigBuilder { config: Config { inner: IntegerConfig::default_big() } }
    }

    /// Default parameters with the small encryption key.
    pub fn default_with_small_encryption() -> (r: Self)
        ensures
            r.config.inner.wopbs_block_parameters is None,
            r.config.inner.compression_parameters is None,
    {
        ConfigBuilder { config: Config { inner: IntegerConfig::default_small() } }
    }

    pub fn with_custom_parameters(
        block_parameters: PBSParameters,
        wopbs_block_parameters: Option<WopbsParameters>,
        compression_parameters: Option<CompressionParameters>,
    ) -> (r: Self)
        ensures
            r.config.inner.block_parameters == block_parameters,
            r.config.inner.wopbs_block_parameters == wopbs_block_parameters,
            r.config.inner.compression_parameters == compression_parameters,
    {
        ConfigBuilder {
            config: Config {
                inner: IntegerConfig::new(
                    block_parameters,
                    wopbs_block_parameters,
                    compression_parameters,
                ),
            },
        }
    }

    pub fn use_custom_parameters(
        self,
        block_parameters: PBSParameters,
        wopbs_block_parameters: Option<WopbsParameters>,
        compression_parameters: Option<CompressionParameters>,
    ) -> (r: Self)
        ensures
            r.config.inner.block_parameters == block_parameters,
            r.config.inner.wopbs_block_parameters == wopbs_block_parameters,
            r.config.inner.compression_parameters == compression_parameters,
    {
        let mut updated = self;
        updated.config.inner = IntegerConfig::new(
            block_parameters,
            wopbs_block_parameters,
            compression_parameters,
        );
        updated
    }

    pub fn build(self) -> (r: Config)
        ensures
            r == self.config,
    {
        self.config
    }
}

impl From<ConfigBuilder> for Config {
    fn from(builder: ConfigBuilder) -> (r: Config) {
        builder.build()
    }
}

impl vstd::std_specs::convert::FromSpecImpl<ConfigBuilder> for Config {
    open spec fn obeys_from_spec() -> bool {
        true
    }

    open spec fn from_spec(builder: ConfigBuilder) -> Config {
        builder.config
    }
}

} // verus!
