//! The settings of a flow map under test, and a builder that fixes them.

use vstd::prelude::*;

verus! {

/// The settings of a flow map that a test chooses. The timeouts are of the
/// type `T` that the flow map keeps them in.
#[derive(Clone, Debug, PartialEq, Eq)]
pub struct FlowConfig<T> {
    pub ignore_idc_vlan: bool,
    pub flow_timeout: T,
}

/// A builder for the settings of a flow map under test.
#[derive(Clone, Debug, PartialEq, Eq)]
pub struct FlowMapTesterBuilder<T> {
    pub config: FlowConfig<T>,
}

impl<T: Default> FlowMapTesterBuilder<T> {
    /// A builder that starts from the given settings.
    pub fn with_config(config: FlowConfig<T>) -> (r: FlowMapTesterBuilder<T>)
        ensures
            r.config == config,
    {
        FlowMapTesterBuilder { config }
    }

    /// Sets the timeouts: the given ones, or the default ones where none
    /// are given. Nothing else changes.
    pub fn flow_timeout(&mut self, flow_timeout: Option<T>) -> (r: &mut FlowMapTesterBuilder<T>)
        ensures
            *final(self) == *final(r),
            r.config.ignore_idc_vlan == old(self).config.ignore_idc_vlan,
            match flow_timeout {
                Some(t) => r.config.flow_timeout == t,
                None => call_ensures(T::default, (), r.config.flow_timeout),
            },
    {
        if let Some(flow_timeout) = flow_timeout {
            self.config.flow_timeout = flow_timeout;
        } else {
            self.config.flow_timeout = T::default();
        }
        self
    }

    /// Sets whether the VLAN of a data centre is ignored. Nothing else
    /// changes.
    pub fn ignore_idc_vlan(&mut self, ignore_idc_vlan: bool) -> (r: &mut FlowMapTesterBuilder<T>)
        ensures
            *final(self) == *final(r),
            r.config.ignore_idc_vlan == ignore_idc_vlan,
            r.config.flow_timeout == old(self).config.flow_timeout,
    {
        self.config.ignore_idc_vlan = ignore_idc_vlan;
        self
    }
}

} // verus!
