//! Names of TIFF, Exif and GPS tags, as a tag listing prints them.
use vstd::prelude::*;
verus! {
/// The name of a TIFF or Exif tag followed by a space; the empty text for a tag that has no
/// name here.
pub open spec fn tag_label(tag: u16) -> Seq<char> {
    match tag {
        0x0001u16 => "InteropIndex "@,
        0x0002u16 => "InteropVersion "@,
        0x000bu16 => "ProcessingSoftware "@,
        0x00feu16 => "SubfileType "@,
        0x00ffu16 => "OldSubfileType "@,
        0x0100u16 => "ImageWidth "@,
        0x0101u16 => "ImageHeight "@,
        0x0102u16 => "BitsPerSample "@,
        0x0103u16 => "Compression "@,
        0x0106u16 => "PhotometricInterpretation "@,
        0x0107u16 => "Thresholding "@,
        0x0108u16 => "CellWidth "@,
        0x0109u16 => "CellLength "@,
        0x010au16 => "FillOrder "@,
        0x010du16 => "DocumentName "@,
        0x010eu16 => "ImageDescription "@,
        0x010fu16 => "Make "@,
        0x0110u16 => "Model "@,
        0x0111u16 => "StripOffsets "@,
        0x0112u16 => "Orientation "@,
        0x0115u16 => "SamplesPerPixel "@,
        0x0116u16 => "RowsPerStrip "@,
        0x0117u16 => "StripByteCounts "@,
        0x0118u16 => "MinSampleValue "@,
        0x0119u16 => "MaxSampleValue "@,
        0x011au16 => "XResolution "@,
        0x011bu16 => "YResolution "@,
        0x011cu16 => "PlanarConfiguration "@,
        0x011du16 => "PageName "@,
        0x011eu16 => "XPosition "@,
        0x011fu16 => "YPosition "@,
        0x0120u16 => "FreeOffsets "@,
        0x0121u16 => "FreeByteCounts "@,
        0x0122u16 => "GrayResponseUnit "@,
        0x0123u16 => "GrayResponseCurve "@,
        0x0124u16 => "T4Options "@,
        0x0125u16 => "T6Options "@,
        0x0128u16 => "ResolutionUnit "@,
        0x0129u16 => "PageNumber "@,
        0x012cu16 => "ColorResponseUnit "@,
        0x012du16 => "TransferFunction "@,
        0x0131u16 => "Software "@,
        0x0132u16 => "ModifyDate "@,
        0x013bu16 => "Artist "@,
        0x013cu16 => "HostComputer "@,
        0x013du16 => "Predictor "@,
        0x013eu16 => "WhitePoint "@,
        0x013fu16 => "PrimaryChromaticities "@,
        0x0140u16 => "ColorMap "@,
        0x0141u16 => "HalftoneHints "@,
        0x0142u16 => "TileWidth "@,
        0x0143u16 => "TileLength "@,
        0x0144u16 => "TileOffsets "@,
        0x0145u16 => "TileByteCounts "@,
        0x0146u16 => "BadFaxLines "@,
        0x0147u16 => "CleanFaxData "@,
        0x0148u16 => "ConsecutiveBadFaxLines "@,
        0x014au16 => "SubIFD "@,
        0x014cu16 => "InkSet "@,
        0x014du16 => "InkNames "@,
        0x014eu16 => "NumberofInks "@,
        0x0150u16 => "DotRange "@,
        0x0151u16 => "TargetPrinter "@,
        0x0152u16 => "ExtraSamples "@,
        0x0153u16 => "SampleFormat "@,
        0x0154u16 => "SMinSampleValue "@,
        0x0155u16 => "SMaxSampleValue "@,
        0x0156u16 => "TransferRange "@,
        0x0157u16 => "ClipPath "@,
        0x0158u16 => "XClipPathUnits "@,
        0x0159u16 => "YClipPathUnits "@,
        0x015au16 => "Indexed "@,
        0x015bu16 => "JPEGTables "@,
        0x015fu16 => "OPIProxy "@,
        0x0190u16 => "GlobalParametersIFD "@,
        0x0191u16 => "ProfileType "@,
        0x0192u16 => "FaxProfile "@,
        0x0193u16 => "CodingMethods "@,
        0x0194u16 => "VersionYear "@,
        0x0195u16 => "ModeNumber "@,
        0x01b1u16 => "Decode "@,
        0x01b2u16 => "DefaultImageColor "@,
        0x01b3u16 => "T82Options "@,
        0x01b5u16 => "JPEGTables "@,
        0x0200u16 => "JPEGProc "@,
        0x0201u16 => "ThumbnailOffset "@,
        0x0202u16 => "ThumbnailLength "@,
        0x0203u16 => "JPEGRestartInterval "@,
        0x0205u16 => "JPEGLosslessPredictors "@,
        0x0206u16 => "JPEGPointTransforms "@,
        0x0207u16 => "JPEGQTables "@,
        0x0208u16 => "JPEGDCTables "@,
        0x0209u16 => "JPEGACTables "@,
        0x0211u16 => "YCbCrCoefficients "@,
        0x0212u16 => "YCbCrSubSampling "@,
        0x0213u16 => "YCbCrPositioning "@,
        0x0214u16 => "ReferenceBlackWhite "@,
        0x022fu16 => "StripRowCounts "@,
        0x02bcu16 => "ApplicationNotes "@,
        0x03e7u16 => "USPTOMiscellaneous "@,
        0x1000u16 => "RelatedImageFileFormat "@,
        0x1001u16 => "RelatedImageWidth "@,
        0x1002u16 => "RelatedImageHeight "@,
        0x4746u16 => "Rating "@,
        0x4747u16 => "XP_DIP_XML "@,
        0x4748u16 => "StitchInfo "@,
        0x4749u16 => "RatingPercent "@,
        0x7000u16 => "SonyRawFileType "@,
        0x7010u16 => "SonyToneCurve "@,
        0x7031u16 => "VignettingCorrection "@,
        0x7032u16 => "VignettingCorrParams "@,
        0x7034u16 => "ChromaticAberrationCorrection "@,
        0x7035u16 => "ChromaticAberrationCorrParams "@,
        0x7036u16 => "DistortionCorrection "@,
        0x7037u16 => "DistortionCorrParams "@,
        0x74c7u16 => "SonyCropTopLeft "@,
        0x74c8u16 => "SonyCropSize "@,
        0x800du16 => "ImageID "@,
        0x80a3u16 => "WangTag1 "@,
        0x80a4u16 => "WangAnnotation "@,
        0x80a5u16 => "WangTag3 "@,
        0x80a6u16 => "WangTag4 "@,
        0x80b9u16 => "ImageReferencePoints "@,
        0x80bau16 => "RegionXformTackPoint "@,
        0x80bbu16 => "WarpQuadrilateral "@,
        0x80bcu16 => "AffineTransformMat "@,
        0x80e3u16 => "Matteing "@,
        0x80e4u16 => "DataType "@,
        0x80e5u16 => "ImageDepth "@,
        0x80e6u16 => "TileDepth "@,
        0x8214u16 => "ImageFullWidth "@,
        0x8215u16 => "ImageFullHeight "@,
        0x8216u16 => "TextureFormat "@,
        0x8217u16 => "WrapModes "@,
        0x8218u16 => "FovCot "@,
        0x8219u16 => "MatrixWorldToScreen "@,
        0x821au16 => "MatrixWorldToCamera "@,
        0x827du16 => "Model2 "@,
        0x828du16 => "CFARepeatPatternDim "@,
        0x828eu16 => "CFAPattern2 "@,
        0x828fu16 => "BatteryLevel "@,
        0x8290u16 => "KodakIFD "@,
        0x8298u16 => "Copyright "@,
        0x829au16 => "ExposureTime "@,
        0x829du16 => "FNumber "@,
        0x82a5u16 => "MDFileTag "@,
        0x82a6u16 => "MDScalePixel "@,
        0x82a7u16 => "MDColorTable "@,
        0x82a8u16 => "MDLabName "@,
        0x82a9u16 => "MDSampleInfo "@,
        0x82aau16 => "MDPrepDate "@,
        0x82abu16 => "MDPrepTime "@,
        0x82acu16 => "MDFileUnits "@,
        0x830eu16 => "PixelScale "@,
        0x8335u16 => "AdventScale "@,
        0x8336u16 => "AdventRevision "@,
        0x835cu16 => "UIC1Tag "@,
        0x835du16 => "UIC2Tag "@,
        0x835eu16 => "UIC3Tag "@,
        0x835fu16 => "UIC4Tag "@,
        0x83bbu16 => "IPTC-NAA "@,
        0x847eu16 => "IntergraphPacketData "@,
        0x847fu16 => "IntergraphFlagRegisters "@,
        0x8480u16 => "IntergraphMatrix "@,
        0x8481u16 => "INGRReserved "@,
        0x8482u16 => "ModelTiePoint "@,
        0x84e0u16 => "Site "@,
        0x84e1u16 => "ColorSequence "@,
        0x84e2u16 => "IT8Header "@,
        0x84e3u16 => "RasterPadding "@,
        0x84e4u16 => "BitsPerRunLength "@,
        0x84e5u16 => "BitsPerExtendedRunLength "@,
        0x84e6u16 => "ColorTable "@,
        0x84e7u16 => "ImageColorIndicator "@,
        0x84e8u16 => "BackgroundColorIndicator "@,
        0x84e9u16 => "ImageColorValue "@,
        0x84eau16 => "BackgroundColorValue "@,
        0x84ebu16 => "PixelIntensityRange "@,
        0x84ecu16 => "TransparencyIndicator "@,
        0x84edu16 => "ColorCharacterization "@,
        0x84eeu16 => "HCUsage "@,
        0x84efu16 => "TrapIndicator "@,
        0x84f0u16 => "CMYKEquivalent "@,
        0x8546u16 => "SEMInfo "@,
        0x8568u16 => "AFCP_IPTC "@,
        0x85b8u16 => "PixelMagicJBIGOptions "@,
        0x85d7u16 => "JPLCartoIFD "@,
        0x85d8u16 => "ModelTransform "@,
        0x8602u16 => "WB_GRGBLevels "@,
        0x8606u16 => "LeafData "@,
        0x8649u16 => "PhotoshopSettings "@,
        0x8769u16 => "ExifOffset "@,
        0x8773u16 => "ICC_Profile "@,
        0x877fu16 => "TIFF_FXExtensions "@,
        0x8780u16 => "MultiProfiles "@,
        0x8781u16 => "SharedData "@,
        0x8782u16 => "T88Options "@,
        0x87acu16 => "ImageLayer "@,
        0x87afu16 => "GeoTiffDirectory "@,
        0x87b0u16 => "GeoTiffDoubleParams "@,
        0x87b1u16 => "GeoTiffAsciiParams "@,
        0x87beu16 => "JBIGOptions "@,
        0x8822u16 => "ExposureProgram "@,
        0x8824u16 => "SpectralSensitivity "@,
        0x8825u16 => "GPSInfo "@,
        0x8827u16 => "ISO "@,
        0x8828u16 => "Opto-ElectricConvFactor "@,
        0x8829u16 => "Interlace "@,
        0x882au16 => "TimeZoneOffset "@,
        0x882bu16 => "SelfTimerMode "@,
        0x8830u16 => "SensitivityType "@,
        0x8831u16 => "StandardOutputSensitivity "@,
        0x8832u16 => "RecommendedExposureIndex "@,
        0x8833u16 => "ISOSpeed "@,
        0x8834u16 => "ISOSpeedLatitudeyyy "@,
        0x8835u16 => "ISOSpeedLatitudezzz "@,
        0x885cu16 => "FaxRecvParams "@,
        0x885du16 => "FaxSubAddress "@,
        0x885eu16 => "FaxRecvTime "@,
        0x8871u16 => "FedexEDR "@,
        0x888au16 => "LeafSubIFD "@,
        0x9000u16 => "ExifVersion "@,
        0x9003u16 => "DateTimeOriginal "@,
        0x9004u16 => "CreateDate "@,
        0x9009u16 => "GooglePlusUploadCode "@,
        0x9010u16 => "OffsetTime "@,
        0x9011u16 => "OffsetTimeOriginal "@,
        0x9012u16 => "OffsetTimeDigitized "@,
        0x9101u16 => "ComponentsConfiguration "@,
        0x9102u16 => "CompressedBitsPerPixel "@,
        0x9201u16 => "ShutterSpeedValue "@,
        0x9202u16 => "ApertureValue "@,
        0x9203u16 => "BrightnessValue "@,
        0x9204u16 => "ExposureCompensation "@,
        0x9205u16 => "MaxApertureValue "@,
        0x9206u16 => "SubjectDistance "@,
        0x9207u16 => "MeteringMode "@,
        0x9208u16 => "LightSource "@,
        0x9209u16 => "Flash "@,
        0x920au16 => "FocalLength "@,
        0x920bu16 => "FlashEnergy "@,
        0x920cu16 => "SpatialFrequencyResponse "@,
        0x920du16 => "Noise "@,
        0x920eu16 => "FocalPlaneXResolution "@,
        0x920fu16 => "FocalPlaneYResolution "@,
        0x9210u16 => "FocalPlaneResolutionUnit "@,
        0x9211u16 => "ImageNumber "@,
        0x9212u16 => "SecurityClassification "@,
        0x9213u16 => "ImageHistory "@,
        0x9214u16 => "SubjectArea "@,
        0x9215u16 => "ExposureIndex "@,
        0x9216u16 => "TIFF-EPStandardID "@,
        0x9217u16 => "SensingMethod "@,
        0x923au16 => "CIP3DataFile "@,
        0x923bu16 => "CIP3Sheet "@,
        0x923cu16 => "CIP3Side "@,
        0x923fu16 => "StoNits "@,
        0x927cu16 => "MakerNoteApple "@,
        0x9286u16 => "UserComment "@,
        0x9290u16 => "SubSecTime "@,
        0x9291u16 => "SubSecTimeOriginal "@,
        0x9292u16 => "SubSecTimeDigitized "@,
        0x932fu16 => "MSDocumentText "@,
        0x9330u16 => "MSPropertySetStorage "@,
        0x9331u16 => "MSDocumentTextPosition "@,
        0x935cu16 => "ImageSourceData "@,
        0x9400u16 => "AmbientTemperature "@,
        0x9401u16 => "Humidity "@,
        0x9402u16 => "Pressure "@,
        0x9403u16 => "WaterDepth "@,
        0x9404u16 => "Acceleration "@,
        0x9405u16 => "CameraElevationAngle "@,
        0x9c9bu16 => "XPTitle "@,
        0x9c9cu16 => "XPComment "@,
        0x9c9du16 => "XPAuthor "@,
        0x9c9eu16 => "XPKeywords "@,
        0x9c9fu16 => "XPSubject "@,
        0xa000u16 => "FlashpixVersion "@,
        0xa001u16 => "ColorSpace "@,
        0xa002u16 => "ExifImageWidth "@,
        0xa003u16 => "ExifImageHeight "@,
        0xa004u16 => "RelatedSoundFile "@,
        0xa005u16 => "InteropOffset "@,
        0xa010u16 => "SamsungRawPointersOffset "@,
        0xa011u16 => "SamsungRawPointersLength "@,
        0xa101u16 => "SamsungRawByteOrder "@,
        0xa102u16 => "SamsungRawUnknown? "@,
        0xa20bu16 => "FlashEnergy "@,
        0xa20cu16 => "SpatialFrequencyResponse "@,
        0xa20du16 => "Noise "@,
        0xa20eu16 => "FocalPlaneXResolution "@,
        0xa20fu16 => "FocalPlaneYResolution "@,
        0xa210u16 => "FocalPlaneResolutionUnit "@,
        0xa211u16 => "ImageNumber "@,
        0xa212u16 => "SecurityClassification "@,
        0xa213u16 => "ImageHistory "@,
        0xa214u16 => "SubjectLocation "@,
        0xa215u16 => "ExposureIndex "@,
        0xa216u16 => "TIFF-EPStandardID "@,
        0xa217u16 => "SensingMethod "@,
        0xa300u16 => "FileSource "@,
        0xa301u16 => "SceneType "@,
        0xa302u16 => "CFAPattern "@,
        0xa401u16 => "CustomRendered "@,
        0xa402u16 => "ExposureMode "@,
        0xa403u16 => "WhiteBalance "@,
        0xa404u16 => "DigitalZoomRatio "@,
        0xa405u16 => "FocalLengthIn35mmFormat "@,
        0xa406u16 => "SceneCaptureType "@,
        0xa407u16 => "GainControl "@,
        0xa408u16 => "Contrast "@,
        0xa409u16 => "Saturation "@,
        0xa40au16 => "Sharpness "@,
        0xa40bu16 => "DeviceSettingDescription "@,
        0xa40cu16 => "SubjectDistanceRange "@,
        0xa420u16 => "ImageUniqueID "@,
        0xa430u16 => "OwnerName "@,
        0xa431u16 => "SerialNumber "@,
        0xa432u16 => "LensInfo "@,
        0xa433u16 => "LensMake "@,
        0xa434u16 => "LensModel "@,
        0xa435u16 => "LensSerialNumber "@,
        0xa460u16 => "CompositeImage "@,
        0xa461u16 => "CompositeImageCount "@,
        0xa462u16 => "CompositeImageExposureTimes "@,
        0xa480u16 => "GDALMetadata "@,
        0xa481u16 => "GDALNoData "@,
        0xa500u16 => "Gamma "@,
        0xafc0u16 => "ExpandSoftware "@,
        0xafc1u16 => "ExpandLens "@,
        0xafc2u16 => "ExpandFilm "@,
        0xafc3u16 => "ExpandFilterLens "@,
        0xafc4u16 => "ExpandScanner "@,
        0xafc5u16 => "ExpandFlashLamp "@,
        0xb4c3u16 => "HasselbladRawImage "@,
        0xbc01u16 => "PixelFormat "@,
        0xbc02u16 => "Transformation "@,
        0xbc03u16 => "Uncompressed "@,
        0xbc04u16 => "ImageType "@,
        0xbc80u16 => "ImageWidth "@,
        0xbc81u16 => "ImageHeight "@,
        0xbc82u16 => "WidthResolution "@,
        0xbc83u16 => "HeightResolution "@,
        0xbcc0u16 => "ImageOffset "@,
        0xbcc1u16 => "ImageByteCount "@,
        0xbcc2u16 => "AlphaOffset "@,
        0xbcc3u16 => "AlphaByteCount "@,
        0xbcc4u16 => "ImageDataDiscard "@,
        0xbcc5u16 => "AlphaDataDiscard "@,
        0xc427u16 => "OceScanjobDesc "@,
        0xc428u16 => "OceApplicationSelector "@,
        0xc429u16 => "OceIDNumber "@,
        0xc42au16 => "OceImageLogic "@,
        0xc44fu16 => "Annotations "@,
        0xc4a5u16 => "PrintIM "@,
        0xc51bu16 => "HasselbladExif "@,
        0xc573u16 => "OriginalFileName "@,
        0xc580u16 => "USPTOOriginalContentType "@,
        0xc5e0u16 => "CR2CFAPattern "@,
        0xc612u16 => "DNGVersion "@,
        0xc613u16 => "DNGBackwardVersion "@,
        0xc614u16 => "UniqueCameraModel "@,
        0xc615u16 => "LocalizedCameraModel "@,
        0xc616u16 => "CFAPlaneColor "@,
        0xc617u16 => "CFALayout "@,
        0xc618u16 => "LinearizationTable "@,
        0xc619u16 => "BlackLevelRepeatDim "@,
        0xc61au16 => "BlackLevel "@,
        0xc61bu16 => "BlackLevelDeltaH "@,
        0xc61cu16 => "BlackLevelDeltaV "@,
        0xc61du16 => "WhiteLevel "@,
        0xc61eu16 => "DefaultScale "@,
        0xc61fu16 => "DefaultCropOrigin "@,
        0xc620u16 => "DefaultCropSize "@,
        0xc621u16 => "ColorMatrix1 "@,
        0xc622u16 => "ColorMatrix2 "@,
        0xc623u16 => "CameraCalibration1 "@,
        0xc624u16 => "CameraCalibration2 "@,
        0xc625u16 => "ReductionMatrix1 "@,
        0xc626u16 => "ReductionMatrix2 "@,
        0xc627u16 => "AnalogBalance "@,
        0xc628u16 => "AsShotNeutral "@,
        0xc629u16 => "AsShotWhiteXY "@,
        0xc62au16 => "BaselineExposure "@,
        0xc62bu16 => "BaselineNoise "@,
        0xc62cu16 => "BaselineSharpness "@,
        0xc62du16 => "BayerGreenSplit "@,
        0xc62eu16 => "LinearResponseLimit "@,
        0xc62fu16 => "CameraSerialNumber "@,
        0xc630u16 => "DNGLensInfo "@,
        0xc631u16 => "ChromaBlurRadius "@,
        0xc632u16 => "AntiAliasStrength "@,
        0xc633u16 => "ShadowScale "@,
        0xc634u16 => "SR2Private "@,
        0xc635u16 => "MakerNoteSafety "@,
        0xc640u16 => "RawImageSegmentation "@,
        0xc65au16 => "CalibrationIlluminant1 "@,
        0xc65bu16 => "CalibrationIlluminant2 "@,
        0xc65cu16 => "BestQualityScale "@,
        0xc65du16 => "RawDataUniqueID "@,
        0xc660u16 => "AliasLayerMetadata "@,
        0xc68bu16 => "OriginalRawFileName "@,
        0xc68cu16 => "OriginalRawFileData "@,
        0xc68du16 => "ActiveArea "@,
        0xc68eu16 => "MaskedAreas "@,
        0xc68fu16 => "AsShotICCProfile "@,
        0xc690u16 => "AsShotPreProfileMatrix "@,
        0xc691u16 => "CurrentICCProfile "@,
        0xc692u16 => "CurrentPreProfileMatrix "@,
        0xc6bfu16 => "ColorimetricReference "@,
        0xc6c5u16 => "SRawType "@,
        0xc6d2u16 => "PanasonicTitle "@,
        0xc6d3u16 => "PanasonicTitle2 "@,
        0xc6f3u16 => "CameraCalibrationSig "@,
        0xc6f4u16 => "ProfileCalibrationSig "@,
        0xc6f5u16 => "ProfileIFD "@,
        0xc6f6u16 => "AsShotProfileName "@,
        0xc6f7u16 => "NoiseReductionApplied "@,
        0xc6f8u16 => "ProfileName "@,
        0xc6f9u16 => "ProfileHueSatMapDims "@,
        0xc6fau16 => "ProfileHueSatMapData1 "@,
        0xc6fbu16 => "ProfileHueSatMapData2 "@,
        0xc6fcu16 => "ProfileToneCurve "@,
        0xc6fdu16 => "ProfileEmbedPolicy "@,
        0xc6feu16 => "ProfileCopyright "@,
        0xc714u16 => "ForwardMatrix1 "@,
        0xc715u16 => "ForwardMatrix2 "@,
        0xc716u16 => "PreviewApplicationName "@,
        0xc717u16 => "PreviewApplicationVersion "@,
        0xc718u16 => "PreviewSettingsName "@,
        0xc719u16 => "PreviewSettingsDigest "@,
        0xc71au16 => "PreviewColorSpace "@,
        0xc71bu16 => "PreviewDateTime "@,
        0xc71cu16 => "RawImageDigest "@,
        0xc71du16 => "OriginalRawFileDigest "@,
        0xc71eu16 => "SubTileBlockSize "@,
        0xc71fu16 => "RowInterleaveFactor "@,
        0xc725u16 => "ProfileLookTableDims "@,
        0xc726u16 => "ProfileLookTableData "@,
        0xc740u16 => "OpcodeList1 "@,
        0xc741u16 => "OpcodeList2 "@,
        0xc74eu16 => "OpcodeList3 "@,
        0xc761u16 => "NoiseProfile "@,
        0xc763u16 => "TimeCodes "@,
        0xc764u16 => "FrameRate "@,
        0xc772u16 => "TStop "@,
        0xc789u16 => "ReelName "@,
        0xc791u16 => "OriginalDefaultFinalSize "@,
        0xc792u16 => "OriginalBestQualitySize "@,
        0xc793u16 => "OriginalDefaultCropSize "@,
        0xc7a1u16 => "CameraLabel "@,
        0xc7a3u16 => "ProfileHueSatMapEncoding "@,
        0xc7a4u16 => "ProfileLookTableEncoding "@,
        0xc7a5u16 => "BaselineExposureOffset "@,
        0xc7a6u16 => "DefaultBlackRender "@,
        0xc7a7u16 => "NewRawImageDigest "@,
        0xc7a8u16 => "RawToPreviewGain "@,
        0xc7aau16 => "CacheVersion "@,
        0xc7b5u16 => "DefaultUserCrop "@,
        0xc7d5u16 => "NikonNEFInfo "@,
        0xc7e9u16 => "DepthFormat "@,
        0xc7eau16 => "DepthNear "@,
        0xc7ebu16 => "DepthFar "@,
        0xc7ecu16 => "DepthUnits "@,
        0xc7edu16 => "DepthMeasureType "@,
        0xc7eeu16 => "EnhanceParams "@,
        0xcd2du16 => "ProfileGainTableMap "@,
        0xcd2eu16 => "SemanticName "@,
        0xcd30u16 => "SemanticInstanceIFD "@,
        0xcd31u16 => "CalibrationIlluminant3 "@,
        0xcd32u16 => "CameraCalibration3 "@,
        0xcd33u16 => "ColorMatrix3 "@,
        0xcd34u16 => "ForwardMatrix3 "@,
        0xcd35u16 => "IlluminantData1 "@,
        0xcd36u16 => "IlluminantData2 "@,
        0xcd37u16 => "IlluminantData3 "@,
        0xcd38u16 => "MaskSubArea "@,
        0xcd39u16 => "ProfileHueSatMapData3 "@,
        0xcd3au16 => "ReductionMatrix3 "@,
        0xcd3bu16 => "RGBTables "@,
        0xea1cu16 => "Padding "@,
        0xea1du16 => "OffsetSchema "@,
        0xfde8u16 => "OwnerName "@,
        0xfde9u16 => "SerialNumber "@,
        0xfdeau16 => "Lens "@,
        0xfe00u16 => "KDC_IFD "@,
        0xfe4cu16 => "RawFile "@,
        0xfe4du16 => "Converter "@,
        0xfe4eu16 => "WhiteBalance "@,
        0xfe51u16 => "Exposure "@,
        0xfe52u16 => "Shadows "@,
        0xfe53u16 => "Brightness "@,
        0xfe54u16 => "Contrast "@,
        0xfe55u16 => "Saturation "@,
        0xfe56u16 => "Sharpness "@,
        0xfe57u16 => "Smoothness "@,
        0xfe58u16 => "MoireFilter "@,
        _ => ""@,
    }
}

/// The name of a GPS tag; the empty text for a tag that has no name here.
pub open spec fn gps_tag_label(tag: u16) -> Seq<char> {
    match tag {
        0x0000u16 => "GPSVersionID"@,
        0x0001u16 => "GPSLatitudeRef"@,
        0x0002u16 => "GPSLatitude"@,
        0x0003u16 => "GPSLongitudeRef"@,
        0x0004u16 => "GPSLongitude"@,
        0x0005u16 => "GPSAltitudeRef"@,
        0x0006u16 => "GPSAltitude"@,
        0x0007u16 => "GPSTimeStamp"@,
        0x0008u16 => "GPSSatellites"@,
        0x0009u16 => "GPSStatus"@,
        0x000au16 => "GPSMeasureMode"@,
        0x000bu16 => "GPSDOP"@,
        0x000cu16 => "GPSSpeedRef"@,
        0x000du16 => "GPSSpeed"@,
        0x000eu16 => "GPSTrackRef"@,
        0x000fu16 => "GPSTrack"@,
        0x0010u16 => "GPSImgDirectionRef"@,
        0x0011u16 => "GPSImgDirection"@,
        0x0012u16 => "GPSMapDatum"@,
        0x0013u16 => "GPSDestLatitudeRef"@,
        0x0014u16 => "GPSDestLatitude"@,
        0x0015u16 => "GPSDestLongitudeRef"@,
        0x0016u16 => "GPSDestLongitude"@,
        0x0017u16 => "GPSDestBearingRef"@,
        0x0018u16 => "GPSDestBearing"@,
        0x0019u16 => "GPSDestDistanceRef"@,
        0x001au16 => "GPSDestDistance"@,
        0x001bu16 => "GPSProcessingMethod"@,
        0x001cu16 => "GPSAreaInformation"@,
        0x001du16 => "GPSDateStamp"@,
        0x001eu16 => "GPSDifferential"@,
        0x001fu16 => "GPSHPositioningError"@,
        _ => ""@,
    }
}

/// The name of a TIFF or Exif tag followed by a space (see `tag_label`).
pub fn tag_name(tag: u16) -> (r: &'static str)
    ensures
        r@ == tag_label(tag),
{
    match tag {
        0x0001 => "InteropIndex ",
        0x0002 => "InteropVersion ",
        0x000b => "ProcessingSoftware ",
        0x00fe => "SubfileType ",
        0x00ff => "OldSubfileType ",
        0x0100 => "ImageWidth ",
        0x0101 => "ImageHeight ",
        0x0102 => "BitsPerSample ",
        0x0103 => "Compression ",
        0x0106 => "PhotometricInterpretation ",
        0x0107 => "Thresholding ",
        0x0108 => "CellWidth ",
        0x0109 => "CellLength ",
        0x010a => "FillOrder ",
        0x010d => "DocumentName ",
        0x010e => "ImageDescription ",
        0x010f => "Make ",
        0x0110 => "Model ",
        0x0111 => "StripOffsets ",
        0x0112 => "Orientation ",
        0x0115 => "SamplesPerPixel ",
        0x0116 => "RowsPerStrip ",
        0x0117 => "StripByteCounts ",
        0x0118 => "MinSampleValue ",
        0x0119 => "MaxSampleValue ",
        0x011a => "XResolution ",
        0x011b => "YResolution ",
        0x011c => "PlanarConfiguration ",
        0x011d => "PageName ",
        0x011e => "XPosition ",
        0x011f => "YPosition ",
        0x0120 => "FreeOffsets ",
        0x0121 => "FreeByteCounts ",
        0x0122 => "GrayResponseUnit ",
        0x0123 => "GrayResponseCurve ",
        0x0124 => "T4Options ",
        0x0125 => "T6Options ",
        0x0128 => "ResolutionUnit ",
        0x0129 => "PageNumber ",
        0x012c => "ColorResponseUnit ",
        0x012d => "TransferFunction ",
        0x0131 => "Software ",
        0x0132 => "ModifyDate ",
        0x013b => "Artist ",
        0x013c => "HostComputer ",
        0x013d => "Predictor ",
        0x013e => "WhitePoint ",
        0x013f => "PrimaryChromaticities ",
        0x0140 => "ColorMap ",
        0x0141 => "HalftoneHints ",
        0x0142 => "TileWidth ",
        0x0143 => "TileLength ",
        0x0144 => "TileOffsets ",
        0x0145 => "TileByteCounts ",
        0x0146 => "BadFaxLines ",
        0x0147 => "CleanFaxData ",
        0x0148 => "ConsecutiveBadFaxLines ",
        0x014a => "SubIFD ",
        0x014c => "InkSet ",
        0x014d => "InkNames ",
        0x014e => "NumberofInks ",
        0x0150 => "DotRange ",
        0x0151 => "TargetPrinter ",
        0x0152 => "ExtraSamples ",
        0x0153 => "SampleFormat ",
        0x0154 => "SMinSampleValue ",
        0x0155 => "SMaxSampleValue ",
        0x0156 => "TransferRange ",
        0x0157 => "ClipPath ",
        0x0158 => "XClipPathUnits ",
        0x0159 => "YClipPathUnits ",
        0x015a => "Indexed ",
        0x015b => "JPEGTables ",
        0x015f => "OPIProxy ",
        0x0190 => "GlobalParametersIFD ",
        0x0191 => "ProfileType ",
        0x0192 => "FaxProfile ",
        0x0193 => "CodingMethods ",
        0x0194 => "VersionYear ",
        0x0195 => "ModeNumber ",
        0x01b1 => "Decode ",
        0x01b2 => "DefaultImageColor ",
        0x01b3 => "T82Options ",
        0x01b5 => "JPEGTables ",
        0x0200 => "JPEGProc ",
        0x0201 => "ThumbnailOffset ",
        0x0202 => "ThumbnailLength ",
        0x0203 => "JPEGRestartInterval ",
        0x0205 => "JPEGLosslessPredictors ",
        0x0206 => "JPEGPointTransforms ",
        0x0207 => "JPEGQTables ",
        0x0208 => "JPEGDCTables ",
        0x0209 => "JPEGACTables ",
        0x0211 => "YCbCrCoefficients ",
        0x0212 => "YCbCrSubSampling ",
        0x0213 => "YCbCrPositioning ",
        0x0214 => "ReferenceBlackWhite ",
        0x022f => "StripRowCounts ",
        0x02bc => "ApplicationNotes ",
        0x03e7 => "USPTOMiscellaneous ",
        0x1000 => "RelatedImageFileFormat ",
        0x1001 => "RelatedImageWidth ",
        0x1002 => "RelatedImageHeight ",
        0x4746 => "Rating ",
        0x4747 => "XP_DIP_XML ",
        0x4748 => "StitchInfo ",
        0x4749 => "RatingPercent ",
        0x7000 => "SonyRawFileType ",
        0x7010 => "SonyToneCurve ",
        0x7031 => "VignettingCorrection ",
        0x7032 => "VignettingCorrParams ",
        0x7034 => "ChromaticAberrationCorrection ",
        0x7035 => "ChromaticAberrationCorrParams ",
        0x7036 => "DistortionCorrection ",
        0x7037 => "DistortionCorrParams ",
        0x74c7 => "SonyCropTopLeft ",
        0x74c8 => "SonyCropSize ",
        0x800d => "ImageID ",
        0x80a3 => "WangTag1 ",
        0x80a4 => "WangAnnotation ",
        0x80a5 => "WangTag3 ",
        0x80a6 => "WangTag4 ",
        0x80b9 => "ImageReferencePoints ",
        0x80ba => "RegionXformTackPoint ",
        0x80bb => "WarpQuadrilateral ",
        0x80bc => "AffineTransformMat ",
        0x80e3 => "Matteing ",
        0x80e4 => "DataType ",
        0x80e5 => "ImageDepth ",
        0x80e6 => "TileDepth ",
        0x8214 => "ImageFullWidth ",
        0x8215 => "ImageFullHeight ",
        0x8216 => "TextureFormat ",
        0x8217 => "WrapModes ",
        0x8218 => "FovCot ",
        0x8219 => "MatrixWorldToScreen ",
        0x821a => "MatrixWorldToCamera ",
        0x827d => "Model2 ",
        0x828d => "CFARepeatPatternDim ",
        0x828e => "CFAPattern2 ",
        0x828f => "BatteryLevel ",
        0x8290 => "KodakIFD ",
        0x8298 => "Copyright ",
        0x829a => "ExposureTime ",
        0x829d => "FNumber ",
        0x82a5 => "MDFileTag ",
        0x82a6 => "MDScalePixel ",
        0x82a7 => "MDColorTable ",
        0x82a8 => "MDLabName ",
        0x82a9 => "MDSampleInfo ",
        0x82aa => "MDPrepDate ",
        0x82ab => "MDPrepTime ",
        0x82ac => "MDFileUnits ",
        0x830e => "PixelScale ",
        0x8335 => "AdventScale ",
        0x8336 => "AdventRevision ",
        0x835c => "UIC1Tag ",
        0x835d => "UIC2Tag ",
        0x835e => "UIC3Tag ",
        0x835f => "UIC4Tag ",
        0x83bb => "IPTC-NAA ",
        0x847e => "IntergraphPacketData ",
        0x847f => "IntergraphFlagRegisters ",
        0x8480 => "IntergraphMatrix ",
        0x8481 => "INGRReserved ",
        0x8482 => "ModelTiePoint ",
        0x84e0 => "Site ",
        0x84e1 => "ColorSequence ",
        0x84e2 => "IT8Header ",
        0x84e3 => "RasterPadding ",
        0x84e4 => "BitsPerRunLength ",
        0x84e5 => "BitsPerExtendedRunLength ",
        0x84e6 => "ColorTable ",
        0x84e7 => "ImageColorIndicator ",
        0x84e8 => "BackgroundColorIndicator ",
        0x84e9 => "ImageColorValue ",
        0x84ea => "BackgroundColorValue ",
        0x84eb => "PixelIntensityRange ",
        0x84ec => "TransparencyIndicator ",
        0x84ed => "ColorCharacterization ",
        0x84ee => "HCUsage ",
        0x84ef => "TrapIndicator ",
        0x84f0 => "CMYKEquivalent ",
        0x8546 => "SEMInfo ",
        0x8568 => "AFCP_IPTC ",
        0x85b8 => "PixelMagicJBIGOptions ",
        0x85d7 => "JPLCartoIFD ",
        0x85d8 => "ModelTransform ",
        0x8602 => "WB_GRGBLevels ",
        0x8606 => "LeafData ",
        0x8649 => "PhotoshopSettings ",
        0x8769 => "ExifOffset ",
        0x8773 => "ICC_Profile ",
        0x877f => "TIFF_FXExtensions ",
        0x8780 => "MultiProfiles ",
        0x8781 => "SharedData ",
        0x8782 => "T88Options ",
        0x87ac => "ImageLayer ",
        0x87af => "GeoTiffDirectory ",
        0x87b0 => "GeoTiffDoubleParams ",
        0x87b1 => "GeoTiffAsciiParams ",
        0x87be => "JBIGOptions ",
        0x8822 => "ExposureProgram ",
        0x8824 => "SpectralSensitivity ",
        0x8825 => "GPSInfo ",
        0x8827 => "ISO ",
        0x8828 => "Opto-ElectricConvFactor ",
        0x8829 => "Interlace ",
        0x882a => "TimeZoneOffset ",
        0x882b => "SelfTimerMode ",
        0x8830 => "SensitivityType ",
        0x8831 => "StandardOutputSensitivity ",
        0x8832 => "RecommendedExposureIndex ",
        0x8833 => "ISOSpeed ",
        0x8834 => "ISOSpeedLatitudeyyy ",
        0x8835 => "ISOSpeedLatitudezzz ",
        0x885c => "FaxRecvParams ",
        0x885d => "FaxSubAddress ",
        0x885e => "FaxRecvTime ",
        0x8871 => "FedexEDR ",
        0x888a => "LeafSubIFD ",
        0x9000 => "ExifVersion ",
        0x9003 => "DateTimeOriginal ",
        0x9004 => "CreateDate ",
        0x9009 => "GooglePlusUploadCode ",
        0x9010 => "OffsetTime ",
        0x9011 => "OffsetTimeOriginal ",
        0x9012 => "OffsetTimeDigitized ",
        0x9101 => "ComponentsConfiguration ",
        0x9102 => "CompressedBitsPerPixel ",
        0x9201 => "ShutterSpeedValue ",
        0x9202 => "ApertureValue ",
        0x9203 => "BrightnessValue ",
        0x9204 => "ExposureCompensation ",
        0x9205 => "MaxApertureValue ",
        0x9206 => "SubjectDistance ",
        0x9207 => "MeteringMode ",
        0x9208 => "LightSource ",
        0x9209 => "Flash ",
        0x920a => "FocalLength ",
        0x920b => "FlashEnergy ",
        0x920c => "SpatialFrequencyResponse ",
        0x920d => "Noise ",
        0x920e => "FocalPlaneXResolution ",
        0x920f => "FocalPlaneYResolution ",
        0x9210 => "FocalPlaneResolutionUnit ",
        0x9211 => "ImageNumber ",
        0x9212 => "SecurityClassification ",
        0x9213 => "ImageHistory ",
        0x9214 => "SubjectArea ",
        0x9215 => "ExposureIndex ",
        0x9216 => "TIFF-EPStandardID ",
        0x9217 => "SensingMethod ",
        0x923a => "CIP3DataFile ",
        0x923b => "CIP3Sheet ",
        0x923c => "CIP3Side ",
        0x923f => "StoNits ",
        0x927c => "MakerNoteApple ",
        0x9286 => "UserComment ",
        0x9290 => "SubSecTime ",
        0x9291 => "SubSecTimeOriginal ",
        0x9292 => "SubSecTimeDigitized ",
        0x932f => "MSDocumentText ",
        0x9330 => "MSPropertySetStorage ",
        0x9331 => "MSDocumentTextPosition ",
        0x935c => "ImageSourceData ",
        0x9400 => "AmbientTemperature ",
        0x9401 => "Humidity ",
        0x9402 => "Pressure ",
        0x9403 => "WaterDepth ",
        0x9404 => "Acceleration ",
        0x9405 => "CameraElevationAngle ",
        0x9c9b => "XPTitle ",
        0x9c9c => "XPComment ",
        0x9c9d => "XPAuthor ",
        0x9c9e => "XPKeywords ",
        0x9c9f => "XPSubject ",
        0xa000 => "FlashpixVersion ",
        0xa001 => "ColorSpace ",
        0xa002 => "ExifImageWidth ",
        0xa003 => "ExifImageHeight ",
        0xa004 => "RelatedSoundFile ",
        0xa005 => "InteropOffset ",
        0xa010 => "SamsungRawPointersOffset ",
        0xa011 => "SamsungRawPointersLength ",
        0xa101 => "SamsungRawByteOrder ",
        0xa102 => "SamsungRawUnknown? ",
        0xa20b => "FlashEnergy ",
        0xa20c => "SpatialFrequencyResponse ",
        0xa20d => "Noise ",
        0xa20e => "FocalPlaneXResolution ",
        0xa20f => "FocalPlaneYResolution ",
        0xa210 => "FocalPlaneResolutionUnit ",
        0xa211 => "ImageNumber ",
        0xa212 => "SecurityClassification ",
        0xa213 => "ImageHistory ",
        0xa214 => "SubjectLocation ",
        0xa215 => "ExposureIndex ",
        0xa216 => "TIFF-EPStandardID ",
        0xa217 => "SensingMethod ",
        0xa300 => "FileSource ",
        0xa301 => "SceneType ",
        0xa302 => "CFAPattern ",
        0xa401 => "CustomRendered ",
        0xa402 => "ExposureMode ",
        0xa403 => "WhiteBalance ",
        0xa404 => "DigitalZoomRatio ",
        0xa405 => "FocalLengthIn35mmFormat ",
        0xa406 => "SceneCaptureType ",
        0xa407 => "GainControl ",
        0xa408 => "Contrast ",
        0xa409 => "Saturation ",
        0xa40a => "Sharpness ",
        0xa40b => "DeviceSettingDescription ",
        0xa40c => "SubjectDistanceRange ",
        0xa420 => "ImageUniqueID ",
        0xa430 => "OwnerName ",
        0xa431 => "SerialNumber ",
        0xa432 => "LensInfo ",
        0xa433 => "LensMake ",
        0xa434 => "LensModel ",
        0xa435 => "LensSerialNumber ",
        0xa460 => "CompositeImage ",
        0xa461 => "CompositeImageCount ",
        0xa462 => "CompositeImageExposureTimes ",
        0xa480 => "GDALMetadata ",
        0xa481 => "GDALNoData ",
        0xa500 => "Gamma ",
        0xafc0 => "ExpandSoftware ",
        0xafc1 => "ExpandLens ",
        0xafc2 => "ExpandFilm ",
        0xafc3 => "ExpandFilterLens ",
        0xafc4 => "ExpandScanner ",
        0xafc5 => "ExpandFlashLamp ",
        0xb4c3 => "HasselbladRawImage ",
        0xbc01 => "PixelFormat ",
        0xbc02 => "Transformation ",
        0xbc03 => "Uncompressed ",
        0xbc04 => "ImageType ",
        0xbc80 => "ImageWidth ",
        0xbc81 => "ImageHeight ",
        0xbc82 => "WidthResolution ",
        0xbc83 => "HeightResolution ",
        0xbcc0 => "ImageOffset ",
        0xbcc1 => "ImageByteCount ",
        0xbcc2 => "AlphaOffset ",
        0xbcc3 => "AlphaByteCount ",
        0xbcc4 => "ImageDataDiscard ",
        0xbcc5 => "AlphaDataDiscard ",
        0xc427 => "OceScanjobDesc ",
        0xc428 => "OceApplicationSelector ",
        0xc429 => "OceIDNumber ",
        0xc42a => "OceImageLogic ",
        0xc44f => "Annotations ",
        0xc4a5 => "PrintIM ",
        0xc51b => "HasselbladExif ",
        0xc573 => "OriginalFileName ",
        0xc580 => "USPTOOriginalContentType ",
        0xc5e0 => "CR2CFAPattern ",
        0xc612 => "DNGVersion ",
        0xc613 => "DNGBackwardVersion ",
        0xc614 => "UniqueCameraModel ",
        0xc615 => "LocalizedCameraModel ",
        0xc616 => "CFAPlaneColor ",
        0xc617 => "CFALayout ",
        0xc618 => "LinearizationTable ",
        0xc619 => "BlackLevelRepeatDim ",
        0xc61a => "BlackLevel ",
        0xc61b => "BlackLevelDeltaH ",
        0xc61c => "BlackLevelDeltaV ",
        0xc61d => "WhiteLevel ",
        0xc61e => "DefaultScale ",
        0xc61f => "DefaultCropOrigin ",
        0xc620 => "DefaultCropSize ",
        0xc621 => "ColorMatrix1 ",
        0xc622 => "ColorMatrix2 ",
        0xc623 => "CameraCalibration1 ",
        0xc624 => "CameraCalibration2 ",
        0xc625 => "ReductionMatrix1 ",
        0xc626 => "ReductionMatrix2 ",
        0xc627 => "AnalogBalance ",
        0xc628 => "AsShotNeutral ",
        0xc629 => "AsShotWhiteXY ",
        0xc62a => "BaselineExposure ",
        0xc62b => "BaselineNoise ",
        0xc62c => "BaselineSharpness ",
        0xc62d => "BayerGreenSplit ",
        0xc62e => "LinearResponseLimit ",
        0xc62f => "CameraSerialNumber ",
        0xc630 => "DNGLensInfo ",
        0xc631 => "ChromaBlurRadius ",
        0xc632 => "AntiAliasStrength ",
        0xc633 => "ShadowScale ",
        0xc634 => "SR2Private ",
        0xc635 => "MakerNoteSafety ",
        0xc640 => "RawImageSegmentation ",
        0xc65a => "CalibrationIlluminant1 ",
        0xc65b => "CalibrationIlluminant2 ",
        0xc65c => "BestQualityScale ",
        0xc65d => "RawDataUniqueID ",
        0xc660 => "AliasLayerMetadata ",
        0xc68b => "OriginalRawFileName ",
        0xc68c => "OriginalRawFileData ",
        0xc68d => "ActiveArea ",
        0xc68e => "MaskedAreas ",
        0xc68f => "AsShotICCProfile ",
        0xc690 => "AsShotPreProfileMatrix ",
        0xc691 => "CurrentICCProfile ",
        0xc692 => "CurrentPreProfileMatrix ",
        0xc6bf => "ColorimetricReference ",
        0xc6c5 => "SRawType ",
        0xc6d2 => "PanasonicTitle ",
        0xc6d3 => "PanasonicTitle2 ",
        0xc6f3 => "CameraCalibrationSig ",
        0xc6f4 => "ProfileCalibrationSig ",
        0xc6f5 => "ProfileIFD ",
        0xc6f6 => "AsShotProfileName ",
        0xc6f7 => "NoiseReductionApplied ",
        0xc6f8 => "ProfileName ",
        0xc6f9 => "ProfileHueSatMapDims ",
        0xc6fa => "ProfileHueSatMapData1 ",
        0xc6fb => "ProfileHueSatMapData2 ",
        0xc6fc => "ProfileToneCurve ",
        0xc6fd => "ProfileEmbedPolicy ",
        0xc6fe => "ProfileCopyright ",
        0xc714 => "ForwardMatrix1 ",
        0xc715 => "ForwardMatrix2 ",
        0xc716 => "PreviewApplicationName ",
        0xc717 => "PreviewApplicationVersion ",
        0xc718 => "PreviewSettingsName ",
        0xc719 => "PreviewSettingsDigest ",
        0xc71a => "PreviewColorSpace ",
        0xc71b => "PreviewDateTime ",
        0xc71c => "RawImageDigest ",
        0xc71d => "OriginalRawFileDigest ",
        0xc71e => "SubTileBlockSize ",
        0xc71f => "RowInterleaveFactor ",
        0xc725 => "ProfileLookTableDims ",
        0xc726 => "ProfileLookTableData ",
        0xc740 => "OpcodeList1 ",
        0xc741 => "OpcodeList2 ",
        0xc74e => "OpcodeList3 ",
        0xc761 => "NoiseProfile ",
        0xc763 => "TimeCodes ",
        0xc764 => "FrameRate ",
        0xc772 => "TStop ",
        0xc789 => "ReelName ",
        0xc791 => "OriginalDefaultFinalSize ",
        0xc792 => "OriginalBestQualitySize ",
        0xc793 => "OriginalDefaultCropSize ",
        0xc7a1 => "CameraLabel ",
        0xc7a3 => "ProfileHueSatMapEncoding ",
        0xc7a4 => "ProfileLookTableEncoding ",
        0xc7a5 => "BaselineExposureOffset ",
        0xc7a6 => "DefaultBlackRender ",
        0xc7a7 => "NewRawImageDigest ",
        0xc7a8 => "RawToPreviewGain ",
        0xc7aa => "CacheVersion ",
        0xc7b5 => "DefaultUserCrop ",
        0xc7d5 => "NikonNEFInfo ",
        0xc7e9 => "DepthFormat ",
        0xc7ea => "DepthNear ",
        0xc7eb => "DepthFar ",
        0xc7ec => "DepthUnits ",
        0xc7ed => "DepthMeasureType ",
        0xc7ee => "EnhanceParams ",
        0xcd2d => "ProfileGainTableMap ",
        0xcd2e => "SemanticName ",
        0xcd30 => "SemanticInstanceIFD ",
        0xcd31 => "CalibrationIlluminant3 ",
        0xcd32 => "CameraCalibration3 ",
        0xcd33 => "ColorMatrix3 ",
        0xcd34 => "ForwardMatrix3 ",
        0xcd35 => "IlluminantData1 ",
        0xcd36 => "IlluminantData2 ",
        0xcd37 => "IlluminantData3 ",
        0xcd38 => "MaskSubArea ",
        0xcd39 => "ProfileHueSatMapData3 ",
        0xcd3a => "ReductionMatrix3 ",
        0xcd3b => "RGBTables ",
        0xea1c => "Padding ",
        0xea1d => "OffsetSchema ",
        0xfde8 => "OwnerName ",
        0xfde9 => "SerialNumber ",
        0xfdea => "Lens ",
        0xfe00 => "KDC_IFD ",
        0xfe4c => "RawFile ",
        0xfe4d => "Converter ",
        0xfe4e => "WhiteBalance ",
        0xfe51 => "Exposure ",
        0xfe52 => "Shadows ",
        0xfe53 => "Brightness ",
        0xfe54 => "Contrast ",
        0xfe55 => "Saturation ",
        0xfe56 => "Sharpness ",
        0xfe57 => "Smoothness ",
        0xfe58 => "MoireFilter ",
        _ => "",
    }
}

/// The name of a GPS tag (see `gps_tag_label`).
pub fn gps_tag_name(tag: u16) -> (r: &'static str)
    ensures
        r@ == gps_tag_label(tag),
{
    match tag {
        0x0000 => "GPSVersionID",
        0x0001 => "GPSLatitudeRef",
        0x0002 => "GPSLatitude",
        0x0003 => "GPSLongitudeRef",
        0x0004 => "GPSLongitude",
        0x0005 => "GPSAltitudeRef",
        0x0006 => "GPSAltitude",
        0x0007 => "GPSTimeStamp",
        0x0008 => "GPSSatellites",
        0x0009 => "GPSStatus",
        0x000a => "GPSMeasureMode",
        0x000b => "GPSDOP",
        0x000c => "GPSSpeedRef",
        0x000d => "GPSSpeed",
        0x000e => "GPSTrackRef",
        0x000f => "GPSTrack",
        0x0010 => "GPSImgDirectionRef",
        0x0011 => "GPSImgDirection",
        0x0012 => "GPSMapDatum",
        0x0013 => "GPSDestLatitudeRef",
        0x0014 => "GPSDestLatitude",
        0x0015 => "GPSDestLongitudeRef",
        0x0016 => "GPSDestLongitude",
        0x0017 => "GPSDestBearingRef",
        0x0018 => "GPSDestBearing",
        0x0019 => "GPSDestDistanceRef",
        0x001a => "GPSDestDistance",
        0x001b => "GPSProcessingMethod",
        0x001c => "GPSAreaInformation",
        0x001d => "GPSDateStamp",
        0x001e => "GPSDifferential",
        0x001f => "GPSHPositioningError",
        _ => "",
    }
}

} // verus!
