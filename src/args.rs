use vstd::prelude::*;

verus! {

/// Command-line options of the service.
#[derive(Clone, Copy, Debug, PartialEq, Eq, Structural)]
pub struct Args {
    pub populate: bool,
    pub download_velov_data: bool,
    pub max_velov_features: u32,
    pub velov_start: u32,
    pub download_weather_data: bool,
    pub filter_velov_data: bool,
    pub merge_datas: bool,
    /// Abort the merge at the first observation without weather coverage,
    /// instead of skipping and counting such observations.
    pub strict_merge: bool,
    pub mock: bool,
    pub benchmark: bool,
}

/// What one run of the service does.
#[derive(Clone, Copy, Debug, PartialEq, Eq, Structural)]
pub enum Command {
    Benchmark,
    FilterVelovData,
    MergeData { strict: bool },
    DownloadWeather,
    DownloadVelov { max_features: u32, start: u32 },
    /// Serve queries, after refreshing the station registry if `populate`,
    /// from the fixture dataset if `mock`.
    Serve { populate: bool, mock: bool },
}

/// The command that options select: the batch jobs take precedence over
/// serving, in the order benchmark, filter, merge, weather download,
/// telemetry download.
pub open spec fn command_spec(a: Args) -> Command {
    if a.benchmark {
        Command::Benchmark
    } else if a.filter_velov_data {
        Command::FilterVelovData
    } else if a.merge_datas {
        Command::MergeData { strict: a.strict_merge }
    } else if a.download_weather_data {
        Command::DownloadWeather
    } else if a.download_velov_data {
        Command::DownloadVelov { max_features: a.max_velov_features, start: a.velov_start }
    } else {
        Command::Serve { populate: a.populate, mock: a.mock }
    }
}

impl Args {
    /// The options when none is given.
    pub fn defaults() -> (r: Args)
        ensures
            !r.populate && !r.download_velov_data && r.max_velov_features == 100 && r.velov_start
                == 1 && !r.download_weather_data && !r.filter_velov_data && !r.merge_datas
                && !r.strict_merge && !r.mock && !r.benchmark,
    {
        Args {
            populate: false,
            download_velov_data: false,
            max_velov_features: 100,
            velov_start: 1,
            download_weather_data: false,
            filter_velov_data: false,
            merge_datas: false,
            strict_merge: false,
            mock: false,
            benchmark: false,
        }
    }

    /// The command that these options select.
    pub fn command(&self) -> (r: Command)
        ensures
            r == command_spec(*self),
    {
        if self.benchmark {
            Command::Benchmark
        } else if self.filter_velov_data {
            Command::FilterVelovData
        } else if self.merge_datas {
            Command::MergeData { strict: self.strict_merge }
        } else if self.download_weather_data {
            Command::DownloadWeather
        } else if self.download_velov_data {
            Command::DownloadVelov { max_features: self.max_velov_features, start: self.velov_start }
        } else {
            Command::Serve { populate: self.populate, mock: self.mock }
        }
    }
}

/// The paging cursor of the telemetry download: page `index` of
/// `max_features` records.
#[derive(Clone, Copy, Debug, PartialEq, Eq, Structural)]
pub struct VelovPage {
    pub index: u32,
    pub max_features: u32,
}

impl VelovPage {
    /// The 1-based position of the first record that the service is asked for.
    pub fn start(&self) -> (r: u64)
        ensures
            r == self.index * self.max_features + 1,
    {
        assert(self.index * self.max_features <= 0xffff_fffe_0000_0001) by (nonlinear_arith)
            requires
                self.index <= u32::MAX,
                self.max_features <= u32::MAX,
        ;
        self.index as u64 * self.max_features as u64 + 1
    }

    /// The record range that names the file of this page:
    /// ((index - 1) · max_features, index · max_features); none for page 0.
    pub fn file_range(&self) -> (r: Option<(u64, u64)>)
        ensures
            self.index == 0 <==> r is None,
            r matches Some(p) ==> p.0 == (self.index - 1) * self.max_features && p.1 == self.index
                * self.max_features,
    {
        if self.index == 0 {
            return None;
        }
        assert(self.index * self.max_features <= 0xffff_fffe_0000_0001) by (nonlinear_arith)
            requires
                self.index <= u32::MAX,
                self.max_features <= u32::MAX,
        ;
        assert((self.index - 1) * self.max_features <= self.index * self.max_features) by (nonlinear_arith)
            requires
                self.index >= 1,
        ;
        let hi = self.index as u64 * self.max_features as u64;
        let lo = (self.index - 1) as u64 * self.max_features as u64;
        Some((lo, hi))
    }

    /// The page after this one, whose address the service gave as `next`;
    /// none when the service gave none, or when the index would overflow.
    pub fn advance(&self, next: Option<String>) -> (r: Option<(VelovPage, String)>)
        ensures
            r matches Some(p) ==> p.0.index == self.index + 1 && p.0.max_features
                == self.max_features && next == Some(p.1),
            r is None <==> next is None || self.index == u32::MAX,
    {
        match next {
            None => None,
            Some(url) => {
                if self.index == u32::MAX {
                    None
                } else {
                    Some((VelovPage { index: self.index + 1, max_features: self.max_features }, url))
                }
            },
        }
    }
}

} // verus!
